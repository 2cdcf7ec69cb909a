use apt_legacy_sources::entry::LegacyAptSource;
use apt_legacy_sources::write::WriteRequest;

fn source_at(path: &str, enabled: bool, url: &str) -> LegacyAptSource {
    LegacyAptSource {
        enabled,
        is_source: false,
        components: "main".to_string(),
        filepath: path.to_string(),
        name: "example".to_string(),
        options: None,
        suite: "stable".to_string(),
        url: url.to_string(),
    }
}

fn two_files() -> Vec<LegacyAptSource> {
    vec![
        source_at("/etc/apt/a.list", true, "http://one"),
        source_at("/etc/apt/b.list", true, "http://two"),
        source_at("/etc/apt/a.list", false, "http://three"),
    ]
}

#[test]
fn save_to_apt_replaces_the_file_of_the_target() {
    let request = LegacyAptSource::save_to_apt(source_at("/etc/apt/a.list", true, "u"), two_files());
    match request {
        WriteRequest::Replace { path, contents } => {
            assert_eq!(path, "/etc/apt/a.list");
            assert_eq!(contents, "deb http://one stable main\n#deb http://three stable main\n");
        }
        other => panic!("{:?}", other),
    }
}

#[test]
fn save_to_apt_writes_only_the_file_of_the_target() {
    let request = LegacyAptSource::save_to_apt(source_at("/etc/apt/b.list", true, "u"), two_files());
    match request {
        WriteRequest::Replace { path, contents } => {
            assert_eq!(path, "/etc/apt/b.list");
            assert_eq!(contents, "deb http://two stable main\n");
        }
        other => panic!("{:?}", other),
    }
}

#[test]
fn save_to_apt_twice_asks_for_the_same_bytes() {
    let first = LegacyAptSource::save_to_apt(source_at("/etc/apt/a.list", true, "u"), two_files());
    let second = LegacyAptSource::save_to_apt(source_at("/etc/apt/a.list", true, "u"), two_files());
    match (first, second) {
        (
            WriteRequest::Replace { path: first_path, contents: first_contents },
            WriteRequest::Replace { path: second_path, contents: second_contents },
        ) => {
            assert_eq!(first_path, second_path);
            assert_eq!(first_contents.as_bytes(), second_contents.as_bytes());
        }
        other => panic!("{:?}", other),
    }
}

#[test]
fn save_to_file_creates_the_given_file() {
    let request = LegacyAptSource::save_to_file(
        source_at("/etc/apt/a.list", true, "u"),
        two_files(),
        "/tmp/copy.list",
    );
    match request {
        WriteRequest::Create { path, contents } => {
            assert_eq!(path, "/tmp/copy.list");
            assert_eq!(contents, "deb http://one stable main\n#deb http://three stable main\n");
        }
        other => panic!("{:?}", other),
    }
}

#[test]
fn save_to_file_via_pkexec_runs_a_shell() {
    let request = LegacyAptSource::save_to_file_via_pkexec(
        source_at("/etc/apt/a.list", true, "u"),
        two_files(),
        "/etc/apt/a.list",
    );
    match request {
        WriteRequest::Run { program, arguments } => {
            assert_eq!(program, "pkexec");
            assert_eq!(
                arguments,
                vec![
                    "bash".to_string(),
                    "-c".to_string(),
                    "echo -e deb http://one stable main\\\\n#deb http://three stable main\\\\n > /etc/apt/a.list"
                        .to_string(),
                ]
            );
        }
        other => panic!("{:?}", other),
    }
}

#[test]
fn save_to_file_via_pkexec_escapes_each_line_feed_with_three_characters() {
    let request = LegacyAptSource::save_to_file_via_pkexec(
        source_at("a", true, "u"),
        vec![source_at("a", true, "u")],
        "f",
    );
    match request {
        WriteRequest::Run { program: _, arguments } => {
            let command: Vec<char> = arguments[2].chars().collect();
            let expected: Vec<char> = "echo -e deb u stable main".chars().chain(['\\', '\\', 'n']).chain(" > f".chars()).collect();
            assert_eq!(command, expected);
        }
        other => panic!("{:?}", other),
    }
}

#[test]
fn save_to_file_via_pkexec_quotes_nothing() {
    let mut entry = source_at("a", true, "http://x/$(id)");
    entry.components = "main 'x'".to_string();
    let request = LegacyAptSource::save_to_file_via_pkexec(entry.clone(), vec![entry], "/tmp/my file");
    match request {
        WriteRequest::Run { program: _, arguments } => {
            assert_eq!(arguments[2], "echo -e deb http://x/$(id) stable main 'x'\\\\n > /tmp/my file");
        }
        other => panic!("{:?}", other),
    }
}

#[test]
fn save_of_no_entries_writes_an_empty_file() {
    let request = LegacyAptSource::save_to_file(source_at("a", true, "u"), Vec::new(), "/tmp/x");
    match request {
        WriteRequest::Create { path, contents } => {
            assert_eq!(path, "/tmp/x");
            assert_eq!(contents, "");
        }
        other => panic!("{:?}", other),
    }
}
