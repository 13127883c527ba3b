use speardrive::action::Event;
use speardrive::quote::push_quoted;
use speardrive::error::Error;
use speardrive::shell::outcome;
use speardrive::shell::shell;

#[test]
fn every_kind_is_written_with_its_name() {
    assert_eq!(Error::Config("c".to_string()).render(), "Config(\"c\")");
    assert_eq!(Error::PlanParse("p".to_string()).render(), "PlanParse(\"p\")");
    assert_eq!(Error::UnknownSource("u".to_string()).render(), "UnknownSource(\"u\")");
    assert_eq!(Error::Upstream("f".to_string()).render(), "Upstream(\"f\")");
    assert_eq!(Error::Filesystem("d".to_string()).render(), "Filesystem(\"d\")");
    assert_eq!(
        Error::CommandError("bash".to_string(), "createrepo /x".to_string()).render(),
        "CommandError(\"bash\", \"createrepo /x\")"
    );
    assert_eq!(Error::InvalidAddress("a".to_string()).render(), "InvalidAddress(\"a\")");
    assert_eq!(Error::Internal("i".to_string()).render(), "Internal(\"i\")");
}

#[test]
fn quotes_and_backslashes_are_escaped() {
    assert_eq!(Error::PlanParse("a\"b\\c".to_string()).render(), "PlanParse(\"a\\\"b\\\\c\")");
    assert_eq!(Error::PlanParse("".to_string()).render(), "PlanParse(\"\")");
    let mut out = vec!['x'];
    push_quoted(&mut out, "\"");
    assert_eq!(out, vec!['x', '"', '\\', '"', '"']);
}

#[test]
fn plain_messages_are_written_as_debug_writes_them() {
    for message in ["", "unknown", "a b/c", "not enough components", "a\"b", "back\\slash"] {
        let err = Error::UnknownSource(message.to_string());
        assert_eq!(err.render(), format!("{:?}", err));
    }
}

#[test]
fn the_shell_is_bash() {
    assert_eq!(shell(), ("bash".to_string(), "-c".to_string()));
}

#[test]
fn a_command_that_ends_well_is_done() {
    assert_eq!(outcome("createrepo /x".to_string(), true), Event::Done);
}

#[test]
fn a_command_that_ends_badly_fails_with_its_line() {
    assert_eq!(
        outcome("createrepo /x".to_string(), false),
        Event::Failed(Error::CommandError("bash".to_string(), "createrepo /x".to_string()))
    );
}
