use apt_legacy_sources::entry::{Directive, LegacyAptSource, SourceLine, SourcesList};
use apt_legacy_sources::extract::{disabled_candidates, join_components};

fn words(text: &str) -> Vec<String> {
    text.split_whitespace().map(|word| word.to_string()).collect()
}

fn decode_words(text: &str) -> Option<Directive> {
    let mut rest = words(text).into_iter();
    let source = match rest.next()?.as_str() {
        "deb" => false,
        "deb-src" => true,
        _ => return None,
    };
    let mut next = rest.next()?;
    let mut options = None;
    if next.starts_with('[') && next.ends_with(']') {
        options = Some(next[1..next.len() - 1].to_string());
        next = rest.next()?;
    }
    let url = next;
    let suite = rest.next()?;
    let components: Vec<String> = rest.collect();
    let filename = url.replace('/', "_");
    Some(Directive { source, options, url, suite, components, filename })
}

fn active_line(text: &str) -> SourceLine {
    match decode_words(text) {
        Some(directive) => SourceLine::Entry(directive),
        None => panic!("not a line that names a repository: {:?}", text),
    }
}

fn comment(text: &str) -> SourceLine {
    SourceLine::Comment(text.to_string())
}

fn list_at(path: &str, lines: Vec<SourceLine>) -> SourcesList {
    SourcesList { path: path.to_string(), lines }
}

#[test]
fn commented_out_line_is_one_disabled_entry() {
    let lists = vec![list_at("/etc/apt/sources.list", vec![comment("#deb http://example.com stable main")])];
    let found = LegacyAptSource::get_legacy_sources(&lists, decode_words);
    assert_eq!(found.len(), 1);
    assert!(!found[0].enabled);
    assert!(!found[0].is_source);
    assert_eq!(found[0].url, "http://example.com");
    assert_eq!(found[0].suite, "stable");
    assert_eq!(found[0].components, "main");
    assert_eq!(found[0].options, None);
    assert_eq!(found[0].filepath, "/etc/apt/sources.list");
    assert_eq!(found[0].name, "http:__example.com");
}

#[test]
fn plain_comment_is_no_entry() {
    let lists = vec![list_at("/etc/apt/sources.list", vec![comment("# just a note")])];
    let found = LegacyAptSource::get_legacy_sources(&lists, decode_words);
    assert_eq!(found.len(), 0);
}

#[test]
fn plain_comment_is_never_handed_to_the_parser() {
    let lists = vec![list_at("a", vec![comment("# just a note"), comment("# deb http://x stable main")])];
    let found = LegacyAptSource::get_legacy_sources(&lists, |text: &str| -> Option<Directive> {
        panic!("asked to decode {:?}", text)
    });
    assert_eq!(found.len(), 0);
}

#[test]
fn active_line_is_one_enabled_entry() {
    let lists = vec![list_at(
        "/etc/apt/sources.list.d/extra.list",
        vec![active_line("deb-src [arch=amd64] http://example.com/debian testing main contrib non-free")],
    )];
    let found = LegacyAptSource::get_legacy_sources(&lists, decode_words);
    assert_eq!(found.len(), 1);
    assert!(found[0].enabled);
    assert!(found[0].is_source);
    assert_eq!(found[0].options, Some("arch=amd64".to_string()));
    assert_eq!(found[0].url, "http://example.com/debian");
    assert_eq!(found[0].suite, "testing");
    assert_eq!(found[0].components, "main contrib non-free");
    assert_eq!(found[0].filepath, "/etc/apt/sources.list.d/extra.list");
    assert_eq!(found[0].name, "http:__example.com_debian");
}

#[test]
fn active_lines_do_not_need_the_parser() {
    let lists = vec![list_at("a", vec![active_line("deb http://one stable main"), SourceLine::Empty])];
    let found = LegacyAptSource::get_legacy_sources(&lists, |text: &str| -> Option<Directive> {
        panic!("asked to decode {:?}", text)
    });
    assert_eq!(found.len(), 1);
    assert!(found[0].enabled);
    assert_eq!(found[0].url, "http://one");
}

#[test]
fn entries_come_in_the_order_of_files_and_lines() {
    let lists = vec![
        list_at(
            "/etc/apt/sources.list",
            vec![
                comment("# main archive"),
                active_line("deb http://one stable main"),
                SourceLine::Empty,
                comment("#deb-src http://two stable main"),
                active_line("deb http://three stable main"),
            ],
        ),
        list_at("/etc/apt/sources.list.d/empty.list", vec![]),
        list_at(
            "/etc/apt/sources.list.d/more.list",
            vec![comment("#deb http://four stable main"), active_line("deb-src http://five stable main")],
        ),
    ];
    let found = LegacyAptSource::get_legacy_sources(&lists, decode_words);
    let seen: Vec<(String, bool, bool, String)> = found
        .iter()
        .map(|entry| (entry.url.clone(), entry.enabled, entry.is_source, entry.filepath.clone()))
        .collect();
    let expected = vec![
        ("http://one".to_string(), true, false, "/etc/apt/sources.list".to_string()),
        ("http://two".to_string(), false, true, "/etc/apt/sources.list".to_string()),
        ("http://three".to_string(), true, false, "/etc/apt/sources.list".to_string()),
        ("http://four".to_string(), false, false, "/etc/apt/sources.list.d/more.list".to_string()),
        ("http://five".to_string(), true, true, "/etc/apt/sources.list.d/more.list".to_string()),
    ];
    assert_eq!(seen, expected);
}

#[test]
fn equal_entries_are_all_kept() {
    let lists = vec![
        list_at("a", vec![active_line("deb http://one stable main"), active_line("deb http://one stable main")]),
        list_at("a", vec![comment("#deb http://one stable main")]),
    ];
    let found = LegacyAptSource::get_legacy_sources(&lists, decode_words);
    assert_eq!(found.len(), 3);
    assert!(found[0].enabled && found[1].enabled && !found[2].enabled);
}

#[test]
fn comment_of_several_lines_gives_an_entry_for_each_accepted_line() {
    let text = "# note\n#deb http://one stable main\r\n#deb-src broken\n##deb http://no stable main\n#deb-src http://two stable main contrib";
    let lists = vec![list_at("a", vec![comment(text)])];
    let found = LegacyAptSource::get_legacy_sources(&lists, decode_words);
    assert_eq!(found.len(), 2);
    assert_eq!(found[0].url, "http://one");
    assert!(!found[0].enabled && !found[0].is_source);
    assert_eq!(found[1].url, "http://two");
    assert!(!found[1].enabled && found[1].is_source);
    assert_eq!(found[1].components, "main contrib");
}

#[test]
fn rejected_candidate_is_passed_over() {
    let lists = vec![list_at(
        "a",
        vec![comment("#deb"), comment("#debian is an operating system"), comment("#deb-src http://x")],
    )];
    let found = LegacyAptSource::get_legacy_sources(&lists, decode_words);
    assert_eq!(found.len(), 0);
}

#[test]
fn parser_gets_each_candidate_without_its_comment_signs() {
    let seen = std::cell::RefCell::new(Vec::new());
    let lists = vec![list_at(
        "a",
        vec![comment("#deb http://one stable main\n# note\n#deb-src  http://two stable"), comment("#deb#x")],
    )];
    let found = LegacyAptSource::get_legacy_sources(&lists, |text: &str| {
        seen.borrow_mut().push(text.to_string());
        None
    });
    assert_eq!(found.len(), 0);
    assert_eq!(
        seen.into_inner(),
        vec!["deb http://one stable main".to_string(), "deb-src  http://two stable".to_string(), "deb#x".to_string()]
    );
}

#[test]
fn disabled_candidates_are_the_marked_lines() {
    assert_eq!(disabled_candidates("#deb http://example.com stable main"), vec!["deb http://example.com stable main".to_string()]);
    assert_eq!(disabled_candidates("# just a note"), Vec::<String>::new());
    assert_eq!(disabled_candidates(""), Vec::<String>::new());
    assert_eq!(disabled_candidates(" #deb http://x stable main"), Vec::<String>::new());
    assert_eq!(disabled_candidates("##deb http://x stable main"), Vec::<String>::new());
    assert_eq!(disabled_candidates("#deb-src x"), vec!["deb-src x".to_string()]);
    assert_eq!(disabled_candidates("#debx"), vec!["debx".to_string()]);
    assert_eq!(disabled_candidates("#deb"), vec!["deb".to_string()]);
    assert_eq!(disabled_candidates("#de"), Vec::<String>::new());
    assert_eq!(
        disabled_candidates("#deb a\n#note\n#deb-src b\r\n#deb c\r"),
        vec!["deb a".to_string(), "deb-src b".to_string(), "deb c\r".to_string()]
    );
}

#[test]
fn disabled_candidates_agree_with_std() {
    for text in ["#deb a\n#deb-src b\n# c", "#deb\n\n#deb-src", "x\n#deby z\r\n", "#deb#deb", "\n#deb q"] {
        let expected: Vec<String> = text
            .lines()
            .filter(|line| line.starts_with("#deb") || line.starts_with("#deb-src"))
            .map(|line| line.trim_start_matches("#").to_string())
            .collect();
        assert_eq!(disabled_candidates(text), expected, "{:?}", text);
    }
}

#[test]
fn join_components_puts_one_space_between() {
    assert_eq!(join_components(&words("main contrib non-free")), "main contrib non-free");
    assert_eq!(join_components(&words("main")), "main");
    assert_eq!(join_components(&Vec::new()), "");
}

#[test]
fn join_components_trims_the_whole() {
    let odd = vec![" main".to_string(), "".to_string(), "contrib\t".to_string()];
    assert_eq!(join_components(&odd), "main  contrib");
    let expected = odd.iter().map(|x| x.to_string() + " ").collect::<String>().trim().to_owned();
    assert_eq!(join_components(&odd), expected);
    assert_eq!(join_components(&vec![" ".to_string(), "\n".to_string()]), "");
}

#[test]
fn from_directive_copies_the_fields() {
    let directive = Directive {
        source: true,
        options: Some("trusted=yes".to_string()),
        url: "http://example.com".to_string(),
        suite: "sid".to_string(),
        components: words("main contrib"),
        filename: "example".to_string(),
    };
    for enabled in [true, false] {
        let entry = LegacyAptSource::from_directive(enabled, &directive, "/etc/apt/sources.list");
        assert_eq!(entry.enabled, enabled);
        assert!(entry.is_source);
        assert_eq!(entry.components, "main contrib");
        assert_eq!(entry.filepath, "/etc/apt/sources.list");
        assert_eq!(entry.name, "example");
        assert_eq!(entry.options, Some("trusted=yes".to_string()));
        assert_eq!(entry.suite, "sid");
        assert_eq!(entry.url, "http://example.com");
    }
}

#[test]
fn no_lists_no_entries() {
    let found = LegacyAptSource::get_legacy_sources(&Vec::new(), decode_words);
    assert_eq!(found.len(), 0);
}

#[test]
fn parser_is_asked_once_for_each_candidate_in_order() {
    let calls = std::cell::Cell::new(0);
    let lists = vec![
        list_at("a", vec![comment("#deb http://same stable main"), comment("#deb http://same stable main")]),
        list_at("b", vec![comment("#deb http://same stable main")]),
    ];
    let found = LegacyAptSource::get_legacy_sources(&lists, |text: &str| {
        calls.set(calls.get() + 1);
        if calls.get() == 2 {
            None
        } else {
            decode_words(text)
        }
    });
    assert_eq!(calls.get(), 3);
    assert_eq!(found.len(), 2);
    assert_eq!(found[0].filepath, "a");
    assert_eq!(found[1].filepath, "b");
    assert!(!found[0].enabled && !found[1].enabled);
}
