use apt_legacy_sources::entry::{Directive, LegacyAptSource, SourceLine, SourcesList};
use apt_legacy_sources::text::lines;

fn decode_line(text: &str) -> Option<Directive> {
    let mut rest = text.split_whitespace();
    let source = match rest.next()? {
        "deb" => false,
        "deb-src" => true,
        _ => return None,
    };
    let mut next = rest.next()?;
    let mut options = None;
    if next.starts_with('[') && next.ends_with(']') {
        options = Some(next[1..next.len() - 1].to_string());
        next = rest.next()?;
    }
    let url = next.to_string();
    let suite = rest.next()?.to_string();
    let components: Vec<String> = rest.map(|word| word.to_string()).collect();
    let filename = url.replace('/', "_");
    Some(Directive { source, options, url, suite, components, filename })
}

fn scan_text(path: &str, text: &str) -> SourcesList {
    let mut scanned = Vec::new();
    for line in lines(text) {
        if line.starts_with('#') {
            scanned.push(SourceLine::Comment(line));
        } else if line.is_empty() {
            scanned.push(SourceLine::Empty);
        } else {
            match decode_line(&line) {
                Some(directive) => scanned.push(SourceLine::Entry(directive)),
                None => panic!("not a line that names a repository: {:?}", line),
            }
        }
    }
    SourcesList { path: path.to_string(), lines: scanned }
}

fn written(path: &str, enabled: bool, is_source: bool, options: Option<&str>, components: &str) -> LegacyAptSource {
    LegacyAptSource {
        enabled,
        is_source,
        components: components.to_string(),
        filepath: path.to_string(),
        name: "anything".to_string(),
        options: options.map(|text| text.to_string()),
        suite: "stable".to_string(),
        url: "http://example.com/debian".to_string(),
    }
}

fn every_kind(path: &str) -> Vec<LegacyAptSource> {
    let mut entries = Vec::new();
    for enabled in [true, false] {
        for is_source in [true, false] {
            for options in [None, Some("arch=amd64")] {
                for components in ["main", "main contrib non-free"] {
                    entries.push(written(path, enabled, is_source, options, components));
                }
            }
        }
    }
    entries
}

#[test]
fn written_entries_read_back_the_same() {
    let path = "/etc/apt/sources.list";
    let entries = every_kind(path);
    let text = LegacyAptSource::render(&entries[0], &entries);
    let list = scan_text(path, &text);
    assert_eq!(list.lines.len(), entries.len());
    let back = LegacyAptSource::get_legacy_sources(&vec![list], decode_line);
    assert_eq!(back.len(), entries.len());
    for (read, entry) in back.iter().zip(entries.iter()) {
        assert!(read.has_same_content(entry), "{:?} {:?}", read, entry);
        assert_eq!(read.filepath, path);
    }
}

#[test]
fn reading_back_and_writing_again_gives_the_same_text() {
    let path = "/etc/apt/sources.list";
    let entries = every_kind(path);
    let text = LegacyAptSource::render(&entries[0], &entries);
    let back = LegacyAptSource::get_legacy_sources(&vec![scan_text(path, &text)], decode_line);
    assert_eq!(LegacyAptSource::render(&back[0], &back), text);
}

#[test]
fn lines_of_the_text_are_the_lines_of_the_entries() {
    let entries = every_kind("a");
    let text = LegacyAptSource::render(&entries[0], &entries);
    let expected: Vec<String> = entries
        .iter()
        .map(|entry| {
            let mut line = entry.to_line();
            assert_eq!(line.pop(), Some('\n'));
            line
        })
        .collect();
    assert_eq!(lines(&text), expected);
}

#[test]
fn disabled_line_is_the_active_line_after_a_comment_sign() {
    for entry in every_kind("a") {
        if !entry.enabled {
            let mut twin = entry.clone();
            twin.enabled = true;
            assert_eq!(entry.to_line(), format!("#{}", twin.to_line()));
        }
    }
}

#[test]
fn only_the_file_of_the_target_reads_back() {
    let mut entries = every_kind("/etc/apt/a.list");
    let others = every_kind("/etc/apt/b.list");
    for (at, other) in others.into_iter().enumerate() {
        entries.insert(2 * at, other);
    }
    let target = written("/etc/apt/a.list", true, false, None, "main");
    let text = LegacyAptSource::render(&target, &entries);
    let back = LegacyAptSource::get_legacy_sources(&vec![scan_text("/etc/apt/a.list", &text)], decode_line);
    let own = every_kind("/etc/apt/a.list");
    assert_eq!(back.len(), own.len());
    for (read, entry) in back.iter().zip(own.iter()) {
        assert!(read.has_same_content(entry));
    }
}
