use speardrive::logging::level_of;
use speardrive::logging::short_name_of;
use speardrive::logging::Error;
use speardrive::logging::Level;
use speardrive::logging::Opt;
use speardrive::logging::Rotation;
use speardrive::logging::Setup;

fn options() -> Opt {
    Opt {
        log_file: None,
        log_dir: None,
        log_level: None,
        stderr_logging_disable: false,
        max_log_size: 128,
    }
}

#[test]
fn levels_by_name() {
    assert_eq!(level_of("trace"), Some(Level::Trace));
    assert_eq!(level_of("debug"), Some(Level::Debug));
    assert_eq!(level_of("info"), Some(Level::Info));
    assert_eq!(level_of("warn"), Some(Level::Warn));
    assert_eq!(level_of("error"), Some(Level::Error));
    assert_eq!(level_of("Info"), None);
    assert_eq!(level_of("warning"), None);
    assert_eq!(level_of(""), None);
}

#[test]
fn without_options_info_is_logged_and_all_is_repeated() {
    assert_eq!(
        options().setup(),
        Ok(Setup {
            level: Level::Info,
            file: None,
            rotation: None,
            announce: false,
            stderr: Some(Level::Trace),
        })
    );
}

#[test]
fn a_level_counts_for_the_logger_and_for_standard_error() {
    let opt = Opt { log_level: Some("warn".to_string()), ..options() };
    let setup = opt.setup().unwrap();
    assert_eq!(setup.level, Level::Warn);
    assert_eq!(setup.stderr, Some(Level::Warn));
}

#[test]
fn an_unknown_level_is_an_error() {
    let opt = Opt {
        log_level: Some("loud".to_string()),
        stderr_logging_disable: true,
        ..options()
    };
    assert_eq!(opt.setup(), Err(Error::InvalidLoggingLevel));
}

#[test]
fn standard_error_can_be_silenced() {
    let opt = Opt {
        log_file: Some("/var/log/x.log".to_string()),
        stderr_logging_disable: true,
        ..options()
    };
    assert_eq!(
        opt.setup(),
        Ok(Setup {
            level: Level::Info,
            file: Some("/var/log/x.log".to_string()),
            rotation: None,
            announce: false,
            stderr: None,
        })
    );
}

#[test]
fn a_log_file_is_announced_on_standard_error() {
    let opt = Opt { log_file: Some("/var/log/x.log".to_string()), ..options() };
    let setup = opt.setup().unwrap();
    assert!(setup.announce);
    assert_eq!(setup.file, Some("/var/log/x.log".to_string()));
}

#[test]
fn rotated_files_share_the_size() {
    let opt = Opt {
        log_dir: Some("/var/log/sd".to_string()),
        stderr_logging_disable: true,
        ..options()
    };
    let setup = opt.setup().unwrap();
    assert_eq!(
        setup.rotation,
        Some(Rotation { directory: "/var/log/sd".to_string(), size: 16 * 1024 * 1024, keep: 8 })
    );
    assert!(setup.announce);
    let opt = Opt { log_dir: Some("d".to_string()), max_log_size: 1, ..options() };
    assert_eq!(opt.setup().unwrap().rotation.unwrap().size, 131072);
    let opt = Opt { log_dir: Some("d".to_string()), max_log_size: 0, ..options() };
    assert_eq!(opt.setup().unwrap().rotation.unwrap().size, 0);
}

#[test]
fn a_size_beyond_64_bits_is_cut_off() {
    let opt = Opt { log_dir: Some("d".to_string()), max_log_size: u64::MAX, ..options() };
    assert_eq!(opt.setup().unwrap().rotation.unwrap().size, u64::MAX);
    let most = u64::MAX / 0x20000;
    let opt = Opt { log_dir: Some("d".to_string()), max_log_size: most, ..options() };
    assert_eq!(opt.setup().unwrap().rotation.unwrap().size, most * 0x20000);
    let opt = Opt { log_dir: Some("d".to_string()), max_log_size: most + 1, ..options() };
    assert_eq!(opt.setup().unwrap().rotation.unwrap().size, u64::MAX);
}

#[test]
fn source_files_are_shown_by_their_short_names() {
    assert_eq!(short_name_of("src/main.rs"), "main");
    assert_eq!(short_name_of("main.rs"), "main");
    assert_eq!(short_name_of("/a/b/c/logging.rs"), "logging");
    assert_eq!(short_name_of("<unnamed>"), "<unnamed>");
    assert_eq!(short_name_of("src/lib.rs.in"), "lib.rs.in");
    assert_eq!(short_name_of("src/"), "");
    assert_eq!(short_name_of(".rs"), "");
    assert_eq!(short_name_of("rs"), "rs");
    assert_eq!(short_name_of("a.rs/b"), "b");
    assert_eq!(short_name_of(""), "");
}
