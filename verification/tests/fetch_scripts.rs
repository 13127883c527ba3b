use speardrive::action::Action;
use speardrive::endpoint::job_endpoint;
use speardrive::fetch::job_actions;
use speardrive::fetch::lines;
use speardrive::fetch::list_url_of;
use speardrive::fetch::remote_actions;

fn dirs(path: &str) -> Action {
    Action::CreateDirs { path: path.to_string() }
}

fn download(url: &str, to: &str) -> Action {
    Action::Download { url: url.to_string(), to: to.to_string() }
}

fn lines_as_strings(text: &str) -> Vec<String> {
    let chars: Vec<char> = text.chars().collect();
    lines(&chars).iter().map(|line| line.iter().collect()).collect()
}

#[test]
fn job_is_downloaded_unpacked_and_the_archive_removed() {
    assert_eq!(
        job_actions("/c/gl/group/proj/42.tmp", "gl", "group/proj", 42),
        vec![
            Action::DownloadJob {
                source_name: "gl".to_string(),
                project: "group/proj".to_string(),
                job_id: 42,
                to: "/c/gl/group/proj/42.tmp/artifacts_zip".to_string(),
            },
            Action::Run {
                command:
                    "unzip /c/gl/group/proj/42.tmp/artifacts_zip -d /c/gl/group/proj/42.tmp"
                        .to_string(),
            },
            Action::RemoveFile { path: "/c/gl/group/proj/42.tmp/artifacts_zip".to_string() },
        ]
    );
}

#[test]
fn list_is_beside_the_files() {
    assert_eq!(
        list_url_of("http://mirror.example.com/pub", "el9/x86_64"),
        "http://mirror.example.com/pub/el9/x86_64/list.txt"
    );
}

#[test]
fn lines_end_at_line_feeds() {
    assert_eq!(lines_as_strings("a\nb"), vec!["a", "b"]);
    assert_eq!(lines_as_strings("a\nb\n"), vec!["a", "b", ""]);
    assert_eq!(lines_as_strings("a\r\nb\r\n"), vec!["a", "b", ""]);
    assert_eq!(lines_as_strings("a\r"), vec!["a\r"]);
    assert_eq!(lines_as_strings("a\r\r\nb"), vec!["a\r", "b"]);
    assert_eq!(lines_as_strings(""), vec![""]);
    assert_eq!(lines_as_strings("\n\n"), vec!["", "", ""]);
}

#[test]
fn lines_that_are_not_empty_are_those_of_the_standard_library() {
    for text in ["", "a", "a\n", "a\nb", "a\r\nb\r\n", "\n\na\n\n", "a\r", "a\r\r\n", "\r\n"] {
        let ours: Vec<String> =
            lines_as_strings(text).into_iter().filter(|line| !line.is_empty()).collect();
        let theirs: Vec<String> =
            text.lines().filter(|line| !line.is_empty()).map(|line| line.to_string()).collect();
        assert_eq!(ours, theirs, "{:?}", text);
    }
}

#[test]
fn every_file_of_the_list_is_downloaded_to_its_place() {
    assert_eq!(
        remote_actions("/c/m/el9.tmp", "http://m/pub", "el9", "a.rpm\nrepodata/repomd.xml\n"),
        vec![
            dirs("/c/m/el9.tmp"),
            download("http://m/pub/el9/a.rpm", "/c/m/el9.tmp/a.rpm"),
            dirs("/c/m/el9.tmp/repodata"),
            download("http://m/pub/el9/repodata/repomd.xml", "/c/m/el9.tmp/repodata/repomd.xml"),
        ]
    );
}

#[test]
fn empty_lines_are_passed_over() {
    assert_eq!(remote_actions("/t", "http://m", "s", ""), vec![]);
    assert_eq!(remote_actions("/t", "http://m", "s", "\n\r\n\n"), vec![]);
    assert_eq!(
        remote_actions("/t", "http://m", "s", "\n\nx\r\n\n"),
        vec![dirs("/t"), download("http://m/s/x", "/t/x")]
    );
}

#[test]
fn lines_cannot_leave_the_temporary_directory() {
    assert_eq!(
        remote_actions("/t", "http://m", "s", "../../etc/passwd\n/abs/file\n//x/../y/../../z"),
        vec![
            dirs("/t/etc"),
            download("http://m/s/etc/passwd", "/t/etc/passwd"),
            dirs("/t/abs"),
            download("http://m/s/abs/file", "/t/abs/file"),
            dirs("/t/x/y"),
            download("http://m/s/x/y/z", "/t/x/y/z"),
        ]
    );
}

#[test]
fn empty_segments_after_the_first_are_kept() {
    assert_eq!(
        remote_actions("/t", "http://m", "s", "a//b"),
        vec![dirs("/t/a/"), download("http://m/s/a//b", "/t/a//b")]
    );
}

#[test]
fn a_line_of_nothing_but_traversal_names_the_directory_itself() {
    assert_eq!(
        remote_actions("/t", "http://m", "s", "../.."),
        vec![dirs("/t"), download("http://m/s/", "/t/")]
    );
}

#[test]
fn no_target_of_a_remote_fetch_leaves_the_temporary_directory() {
    let list = "a\n../b\n/c\n../../../../d/e\n./f\n..\n.../g\nh/../../i\n\r\n//\n";
    for action in remote_actions("/cache/m/s.tmp", "http://m", "s", list) {
        let target = match action {
            Action::CreateDirs { path } => path,
            Action::Download { to, .. } => to,
            other => panic!("unexpected action {:?}", other),
        };
        assert!(target == "/cache/m/s.tmp" || target.starts_with("/cache/m/s.tmp/"));
        assert!(target.split('/').all(|segment| segment != ".."));
    }
}

#[test]
fn job_endpoint_escapes_the_project_as_one_component() {
    assert_eq!(job_endpoint("group/proj", 42), "projects/group%2Fproj/jobs/42/artifacts");
    assert_eq!(job_endpoint("plain", 0), "projects/plain/jobs/0/artifacts");
    assert_eq!(
        job_endpoint("a b/c?d", u64::MAX),
        "projects/a%20b%2Fc%3Fd/jobs/18446744073709551615/artifacts"
    );
}
