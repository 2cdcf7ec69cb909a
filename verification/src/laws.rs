//! What holds of rendering and extraction together.

use crate::entry::{DirectiveView, EntryView, LineView, ListView};
use crate::extract::{
    candidates, disabled_at, disabled_entries, entries_of_line, entries_of_list, entry_of,
    is_marked, joined, line_entries, marked, spaced, uncomment, uncommented, Grammar,
};
use crate::render::{at_path, body_of, file_text, line_of, prefix_of, text_of, to_line};
use crate::text::{
    is_whitespace, lemma_first_break_is, lemma_lines_of_single, lemma_trimmed_is_tight, lines_of,
    trimmed_end, trimmed_start, without_cr, without_leading,
};
use vstd::prelude::*;

verus! {

/// Whether `text` holds no line feed.
pub open spec fn is_one_line(text: Seq<char>) -> bool {
    forall|i: int| 0 <= i < text.len() ==> text[i] != '\n'
}

/// Whether the line of `e` reads back as one line that is its body: no field
/// that goes into the line holds a line feed, and the components do not end
/// with a carriage return.
pub open spec fn is_line_safe(e: EntryView) -> bool {
    &&& is_one_line(e.url)
    &&& is_one_line(e.suite)
    &&& is_one_line(e.components)
    &&& e.options matches Some(options) ==> is_one_line(options)
    &&& e.components.len() > 0 ==> e.components.last() != '\r'
}

/// `body_of`, as a value.
pub open spec fn to_body() -> spec_fn(EntryView) -> Seq<char> {
    |e: EntryView| body_of(e)
}

/// The prefix of a line is one of four words, by the two flags of the entry,
/// and two entries whose flags differ have different prefixes.
pub proof fn lemma_prefix_total(enabled: bool, is_source: bool)
    ensures
        enabled && !is_source ==> prefix_of(enabled, is_source) == "deb"@,
        enabled && is_source ==> prefix_of(enabled, is_source) == "deb-src"@,
        !enabled && !is_source ==> prefix_of(enabled, is_source) == "#deb"@,
        !enabled && is_source ==> prefix_of(enabled, is_source) == "#deb-src"@,
        forall|other_enabled: bool, other_source: bool|
            prefix_of(other_enabled, other_source) == prefix_of(enabled, is_source) ==> (
            other_enabled == enabled && other_source == is_source),
{
    reveal_strlit("deb");
    reveal_strlit("deb-src");
    reveal_strlit("#deb");
    reveal_strlit("#deb-src");
    assert("deb"@.len() == 3 && "deb-src"@.len() == 7 && "#deb"@.len() == 4 && "#deb-src"@.len()
        == 8);
}

/// The line of an entry is decided by its six content fields.
pub proof fn lemma_line_by_content(a: EntryView, b: EntryView)
    requires
        a.same_content(b),
    ensures
        line_of(a) == line_of(b),
{
}

/// Text made of two texts without a line feed holds none.
proof fn lemma_one_line_add(a: Seq<char>, b: Seq<char>)
    requires
        is_one_line(a),
        is_one_line(b),
    ensures
        is_one_line(a + b),
{
}

/// The body of a line-safe entry is not empty, holds no line feed and does not
/// end with a carriage return.
pub proof fn lemma_body_is_one_line(e: EntryView)
    requires
        is_line_safe(e),
    ensures
        body_of(e).len() > 0,
        is_one_line(body_of(e)),
        body_of(e).last() != '\r',
{
    reveal_strlit("deb");
    reveal_strlit("deb-src");
    reveal_strlit("#deb");
    reveal_strlit("#deb-src");
    reveal_strlit(" [");
    reveal_strlit("] ");
    reveal_strlit(" ");
    let head = prefix_of(e.enabled, e.is_source);
    assert(is_one_line(head));
    assert(head.len() > 0);
    let space = " "@;
    match e.options {
        Some(options) => {
            let opened = head + " ["@;
            let with_options = opened + options;
            let closed = with_options + "] "@;
            let with_url = closed + e.url;
            let after_url = with_url + space;
            let with_suite = after_url + e.suite;
            let after_suite = with_suite + space;
            lemma_one_line_add(head, " ["@);
            lemma_one_line_add(opened, options);
            lemma_one_line_add(with_options, "] "@);
            lemma_one_line_add(closed, e.url);
            lemma_one_line_add(with_url, space);
            lemma_one_line_add(after_url, e.suite);
            lemma_one_line_add(with_suite, space);
            lemma_one_line_add(after_suite, e.components);
            assert(body_of(e) == after_suite + e.components);
            assert(after_suite.last() == ' ');
        },
        None => {
            let after_head = head + space;
            let with_url = after_head + e.url;
            let after_url = with_url + space;
            let with_suite = after_url + e.suite;
            let after_suite = with_suite + space;
            lemma_one_line_add(head, space);
            lemma_one_line_add(after_head, e.url);
            lemma_one_line_add(with_url, space);
            lemma_one_line_add(after_url, e.suite);
            lemma_one_line_add(with_suite, space);
            lemma_one_line_add(after_suite, e.components);
            assert(body_of(e) == after_suite + e.components);
            assert(after_suite.last() == ' ');
        },
    }
}

/// The body of a disabled entry is that of the same entry made active, after
/// one comment sign. It is marked, and without its comment sign it is the
/// body of the active entry.
pub proof fn lemma_disabled_body(e: EntryView)
    requires
        !e.enabled,
    ensures
        body_of(e) == seq!['#'] + body_of(e.activated()),
        is_marked(body_of(e)),
        uncommented(body_of(e)) == body_of(e.activated()),
{
    reveal_strlit("deb");
    reveal_strlit("deb-src");
    reveal_strlit("#deb");
    reveal_strlit("#deb-src");
    let on = e.activated();
    let head = prefix_of(e.enabled, e.is_source);
    let head_on = prefix_of(true, e.is_source);
    assert(head =~= seq!['#'] + head_on);
    assert(head_on.len() >= 3 && head_on[0] == 'd');
    assert("#deb"@.is_prefix_of(head)) by {
        assert("#deb"@ =~= head.subrange(0, 4));
    }
    match e.options {
        Some(options) => {
            let tail = " ["@ + options + "] "@ + e.url + " "@ + e.suite + " "@ + e.components;
            assert(body_of(e) =~= head + tail);
            assert(body_of(on) =~= head_on + tail);
        },
        None => {
            let tail = " "@ + e.url + " "@ + e.suite + " "@ + e.components;
            assert(body_of(e) =~= head + tail);
            assert(body_of(on) =~= head_on + tail);
        },
    }
    let body = body_of(e);
    let body_on = body_of(on);
    assert(body =~= seq!['#'] + body_on);
    assert("#deb"@ =~= body.subrange(0, 4));
    assert(body.drop_first() =~= body_on);
    assert(body_on[0] == 'd');
    assert(without_leading(body_on, '#') == body_on);
    assert(without_leading(body, '#') == without_leading(body.drop_first(), '#'));
}

/// The candidates of the body of a disabled, line-safe entry: the body of the
/// same entry made active, and nothing else.
pub proof fn lemma_candidates_of_disabled_body(e: EntryView)
    requires
        !e.enabled,
        is_line_safe(e),
    ensures
        candidates(body_of(e)) == seq![body_of(e.activated())],
{
    let body = body_of(e);
    lemma_body_is_one_line(e);
    lemma_disabled_body(e);
    lemma_lines_of_single(body);
    let none = Seq::<Seq<char>>::empty();
    assert(none.filter(marked()) =~= none) by {
        reveal(Seq::filter);
    }
    none.lemma_filter_push(body, marked());
    assert(none.push(body) =~= seq![body]);
    assert(seq![body].filter(marked()) =~= seq![body]);
    assert(seq![body].map_values(uncomment()) =~= seq![uncommented(body)]);
}

/// A comment that is the body of a disabled, line-safe entry gives one
/// entry, where the grammar decodes the body of the same entry made active:
/// the disabled entry of what it decodes to.
pub proof fn lemma_disabled_body_read_back(
    e: EntryView,
    directive: DirectiveView,
    path: Seq<char>,
    grammar: Grammar,
)
    requires
        !e.enabled,
        is_line_safe(e),
        grammar(body_of(e.activated())) == Some(directive),
    ensures
        disabled_entries(body_of(e), path, grammar) == seq![entry_of(false, directive, path)],
{
    lemma_candidates_of_disabled_body(e);
    let text = body_of(e.activated());
    Seq::lemma_filter_map_singleton(text, grammar);
    assert(seq![directive].map_values(disabled_at(path)) =~= seq![
        entry_of(false, directive, path),
    ]);
}

/// The text of some entries is the line of the first, then the text of the
/// others.
proof fn lemma_text_of_unfold(entries: Seq<EntryView>)
    requires
        entries.len() > 0,
    ensures
        text_of(entries) == line_of(entries.first()) + text_of(entries.drop_first()),
{
    let mapped = entries.map_values(to_line());
    assert(mapped.drop_first() =~= entries.drop_first().map_values(to_line()));
}

/// The lines of the text of line-safe entries are their bodies, in order.
pub proof fn lemma_lines_of_text(entries: Seq<EntryView>)
    requires
        forall|i: int| 0 <= i < entries.len() ==> is_line_safe(#[trigger] entries[i]),
    ensures
        lines_of(text_of(entries)) == entries.map_values(to_body()),
    decreases entries.len(),
{
    if entries.len() == 0 {
        assert(text_of(entries) =~= Seq::<char>::empty());
        assert(entries.map_values(to_body()) =~= Seq::<Seq<char>>::empty());
    } else {
        let e = entries.first();
        let rest = entries.drop_first();
        let body = body_of(e);
        let text = text_of(entries);
        reveal_strlit("\n");
        lemma_text_of_unfold(entries);
        lemma_body_is_one_line(e);
        assert forall|i: int| 0 <= i < rest.len() implies is_line_safe(#[trigger] rest[i]) by {
            assert(rest[i] == entries[i + 1]);
        }
        lemma_lines_of_text(rest);
        let k = body.len() as int;
        assert(text =~= body + "\n"@ + text_of(rest));
        assert(text[k] == '\n');
        assert forall|j: int| 0 <= j < k implies text[j] != '\n' by {
            assert(text[j] == body[j]);
        }
        lemma_first_break_is(text, k);
        assert(text.take(k) =~= body);
        assert(without_cr(body) == body);
        assert(text.skip(k + 1) =~= text_of(rest));
        assert(seq![body] + rest.map_values(to_body()) =~= entries.map_values(to_body()));
    }
}

/// Whether `line` is what the line of `e` reads back as, in a list at `path`
/// whose commented-out lines `grammar` decodes: a line that names the
/// repository of `e`, if `e` is active; else a comment with the body of `e`,
/// where `grammar` decodes the same line without its comment sign to that
/// repository.
pub open spec fn reads_back(line: LineView, e: EntryView, path: Seq<char>, grammar: Grammar) -> bool {
    if e.enabled {
        line matches LineView::Entry(directive) && entry_of(true, directive, path).same_content(e)
    } else {
        &&& line == LineView::Comment(body_of(e))
        &&& grammar(body_of(e.activated())) matches Some(directive) && entry_of(
            false,
            directive,
            path,
        ).same_content(e)
    }
}

/// Entries that are written and read back are the same entries: where each
/// line of `list` is what the line of the entry at its place reads back as,
/// the entries of `list` are as many as `entries`, and each agrees with the one
/// at its place in the six content fields and belongs to the file of `list`.
pub proof fn lemma_round_trip(entries: Seq<EntryView>, list: ListView, grammar: Grammar)
    requires
        list.lines.len() == entries.len(),
        forall|i: int| 0 <= i < entries.len() ==> is_line_safe(#[trigger] entries[i]),
        forall|i: int|
            0 <= i < entries.len() ==> reads_back(
                #[trigger] list.lines[i],
                entries[i],
                list.path,
                grammar,
            ),
    ensures
        entries_of_list(list, grammar).len() == entries.len(),
        forall|i: int|
            0 <= i < entries.len() ==> (#[trigger] entries_of_list(list, grammar)[i]).same_content(
                entries[i],
            ) && entries_of_list(list, grammar)[i].filepath == list.path,
    decreases entries.len(),
{
    let each = line_entries(list.path, grammar);
    if entries.len() == 0 {
        assert(list.lines.flat_map(each) =~= Seq::<EntryView>::empty());
    } else {
        let n = entries.len() - 1;
        let e = entries[n];
        let line = list.lines[n];
        let shorter = ListView { path: list.path, lines: list.lines.drop_last() };
        assert forall|i: int| 0 <= i < n implies reads_back(
            #[trigger] shorter.lines[i],
            entries.drop_last()[i],
            shorter.path,
            grammar,
        ) by {
            assert(shorter.lines[i] == list.lines[i]);
        }
        assert forall|i: int| 0 <= i < n implies is_line_safe(#[trigger] entries.drop_last()[i]) by {
            assert(entries.drop_last()[i] == entries[i]);
        }
        lemma_round_trip(entries.drop_last(), shorter, grammar);
        let before = entries_of_list(shorter, grammar);
        assert(list.lines =~= list.lines.drop_last().push(line));
        list.lines.drop_last().lemma_flat_map_push(each, line);
        assert(entries_of_list(list, grammar) =~= before + entries_of_line(
            line,
            list.path,
            grammar,
        ));
        assert(reads_back(line, e, list.path, grammar));
        if e.enabled {
            assert(entries_of_line(line, list.path, grammar).len() == 1);
        } else {
            let directive = grammar(body_of(e.activated()))->0;
            lemma_disabled_body_read_back(e, directive, list.path, grammar);
        }
        let single = entries_of_line(line, list.path, grammar);
        assert(single.len() == 1);
        assert(single[0].same_content(e) && single[0].filepath == list.path);
        let back = entries_of_list(list, grammar);
        assert(back.len() == entries.len());
        assert forall|i: int| 0 <= i < entries.len() implies (#[trigger] back[i]).same_content(
            entries[i],
        ) && back[i].filepath == list.path by {
            if i < n {
                assert(back[i] == before[i]);
                assert(entries.drop_last()[i] == entries[i]);
            } else {
                assert(back[i] == single[0]);
            }
        }
    }
}

/// Whether `line` is what a scan makes of the line `text` of a list: a
/// comment with that text, if the text begins with a comment sign; else the
/// line that names the repository that `grammar` decodes the text to.
pub open spec fn scans_as(text: Seq<char>, line: LineView, grammar: Grammar) -> bool {
    if text.len() > 0 && text.first() == '#' {
        line == LineView::Comment(text)
    } else {
        grammar(text) matches Some(directive) && line == LineView::Entry(directive)
    }
}

/// Whether `grammar` decodes the line of `e`, made active, to the repository
/// that `e` names: the entry of what it decodes to agrees with `e` in the six
/// content fields.
pub open spec fn decodes_line_of(grammar: Grammar, e: EntryView) -> bool {
    grammar(body_of(e.activated())) matches Some(directive) && entry_of(
        e.enabled,
        directive,
        e.filepath,
    ).same_content(e)
}

/// The text of some entries of one file, scanned and extracted, gives the
/// entries back: where `grammar` decodes the line of each entry to the
/// repository that it names, and each line of `list` is what a scan makes of
/// the line of the text at its place, the entries of `list` are as many as
/// `entries`, and each agrees with the one at its place in the six content
/// fields and belongs to the file.
pub proof fn lemma_round_trip_of_text(entries: Seq<EntryView>, list: ListView, grammar: Grammar)
    requires
        forall|i: int|
            0 <= i < entries.len() ==> is_line_safe(#[trigger] entries[i]) && entries[i].filepath
                == list.path && decodes_line_of(grammar, entries[i]),
        list.lines.len() == lines_of(text_of(entries)).len(),
        forall|i: int|
            0 <= i < list.lines.len() ==> scans_as(
                lines_of(text_of(entries))[i],
                #[trigger] list.lines[i],
                grammar,
            ),
    ensures
        entries_of_list(list, grammar).len() == entries.len(),
        forall|i: int|
            0 <= i < entries.len() ==> (#[trigger] entries_of_list(list, grammar)[i]).same_content(
                entries[i],
            ) && entries_of_list(list, grammar)[i].filepath == list.path,
{
    lemma_lines_of_text(entries);
    assert forall|i: int| 0 <= i < entries.len() implies reads_back(
        #[trigger] list.lines[i],
        entries[i],
        list.path,
        grammar,
    ) by {
        let e = entries[i];
        let body = body_of(e);
        assert(is_line_safe(e) && decodes_line_of(grammar, e));
        assert(lines_of(text_of(entries))[i] == body);
        assert(scans_as(body, list.lines[i], grammar));
        lemma_body_is_one_line(e);
        if e.enabled {
            reveal_strlit("deb");
            reveal_strlit("deb-src");
            assert(e.activated() == e);
            assert(body.first() == 'd') by {
                lemma_body_starts_with_prefix(e);
            }
        } else {
            lemma_disabled_body(e);
            assert(body.first() == '#');
        }
    }
    lemma_round_trip(entries, list, grammar);
}

/// The body of an entry begins with its prefix.
proof fn lemma_body_starts_with_prefix(e: EntryView)
    ensures
        prefix_of(e.enabled, e.is_source).is_prefix_of(body_of(e)),
        prefix_of(e.enabled, e.is_source).len() > 0,
        body_of(e).first() == prefix_of(e.enabled, e.is_source).first(),
{
    reveal_strlit("deb");
    reveal_strlit("deb-src");
    reveal_strlit("#deb");
    reveal_strlit("#deb-src");
    let head = prefix_of(e.enabled, e.is_source);
    match e.options {
        Some(options) => {
            let tail = " ["@ + options + "] "@ + e.url + " "@ + e.suite + " "@ + e.components;
            assert(body_of(e) =~= head + tail);
        },
        None => {
            let tail = " "@ + e.url + " "@ + e.suite + " "@ + e.components;
            assert(body_of(e) =~= head + tail);
        },
    }
    assert(head =~= body_of(e).subrange(0, head.len() as int));
}

/// The text of some entries is decided by their content: entries that agree
/// one by one in the six content fields have the same text.
pub proof fn lemma_text_by_content(first: Seq<EntryView>, second: Seq<EntryView>)
    requires
        first.len() == second.len(),
        forall|i: int| 0 <= i < first.len() ==> (#[trigger] first[i]).same_content(second[i]),
    ensures
        text_of(first) == text_of(second),
{
    assert forall|i: int| 0 <= i < first.len() implies first.map_values(to_line())[i]
        == second.map_values(to_line())[i] by {
        assert(first[i].same_content(second[i]));
        lemma_line_by_content(first[i], second[i]);
    }
    assert(first.map_values(to_line()) =~= second.map_values(to_line()));
}

/// Entries that are written, read back and written again give the same text:
/// where each line of `list` is what the line of the entry at its place reads
/// back as, the entries of `list` are written as `entries` are.
pub proof fn lemma_written_again(entries: Seq<EntryView>, list: ListView, grammar: Grammar)
    requires
        list.lines.len() == entries.len(),
        forall|i: int| 0 <= i < entries.len() ==> is_line_safe(#[trigger] entries[i]),
        forall|i: int|
            0 <= i < entries.len() ==> reads_back(
                #[trigger] list.lines[i],
                entries[i],
                list.path,
                grammar,
            ),
    ensures
        file_text(entries_of_list(list, grammar), list.path) == text_of(entries),
{
    let back = entries_of_list(list, grammar);
    lemma_round_trip(entries, list, grammar);
    assert forall|i: int| 0 <= i < back.len() implies (#[trigger] back[i]).filepath
        == list.path by {
        assert(back[i].same_content(entries[i]));
    }
    lemma_file_text_of_own(back, list.path);
    lemma_text_by_content(back, entries);
}

/// The text of a file is made list by list: that of two sequences of entries,
/// one after the other, is the text of the first and then that of the second.
pub proof fn lemma_file_text_add(first: Seq<EntryView>, second: Seq<EntryView>, path: Seq<char>)
    ensures
        file_text(first + second, path) == file_text(first, path) + file_text(second, path),
    decreases second.len(),
{
    let here = at_path(path);
    Seq::filter_distributes_over_add(first, second, here);
    lemma_text_of_add(first.filter(here), second.filter(here));
}

/// The text of two sequences of entries, one after the other, is the text of
/// the first and then that of the second.
pub proof fn lemma_text_of_add(first: Seq<EntryView>, second: Seq<EntryView>)
    ensures
        text_of(first + second) == text_of(first) + text_of(second),
    decreases second.len(),
{
    if second.len() == 0 {
        assert(first + second =~= first);
        assert(text_of(second) =~= Seq::<char>::empty());
        assert(text_of(first) + text_of(second) =~= text_of(first));
    } else {
        let last = second.last();
        let front = second.drop_last();
        lemma_text_of_add(first, front);
        assert(first + second =~= (first + front).push(last));
        assert(second =~= front.push(last));
        (first + front).lemma_flat_map_push(to_line(), last);
        front.lemma_flat_map_push(to_line(), last);
        assert((text_of(first) + text_of(front)) + line_of(last) =~= text_of(first) + (text_of(
            front,
        ) + line_of(last)));
    }
}

/// Entries of other files leave no trace in the text of a file: entries of
/// which none belongs to the file at `path` have no text there.
pub proof fn lemma_file_text_of_others(entries: Seq<EntryView>, path: Seq<char>)
    requires
        forall|i: int| 0 <= i < entries.len() ==> (#[trigger] entries[i]).filepath != path,
    ensures
        file_text(entries, path) == Seq::<char>::empty(),
    decreases entries.len(),
{
    let here = at_path(path);
    if entries.len() == 0 {
        assert(entries.filter(here) =~= Seq::<EntryView>::empty()) by {
            reveal(Seq::filter);
        }
    } else {
        let front = entries.drop_last();
        assert forall|i: int| 0 <= i < front.len() implies (#[trigger] front[i]).filepath
            != path by {
            assert(front[i] == entries[i]);
        }
        lemma_file_text_of_others(front, path);
        assert(entries =~= front.push(entries.last()));
        front.lemma_filter_push(entries.last(), here);
    }
    assert(text_of(Seq::<EntryView>::empty()) =~= Seq::<char>::empty());
}

/// Entries that all belong to the file at `path` are all in its text.
pub proof fn lemma_file_text_of_own(entries: Seq<EntryView>, path: Seq<char>)
    requires
        forall|i: int| 0 <= i < entries.len() ==> (#[trigger] entries[i]).filepath == path,
    ensures
        file_text(entries, path) == text_of(entries),
    decreases entries.len(),
{
    let here = at_path(path);
    if entries.len() == 0 {
        assert(entries.filter(here) =~= entries) by {
            reveal(Seq::filter);
        }
    } else {
        let front = entries.drop_last();
        assert forall|i: int| 0 <= i < front.len() implies (#[trigger] front[i]).filepath
            == path by {
            assert(front[i] == entries[i]);
        }
        lemma_file_text_of_own(front, path);
        assert(entries =~= front.push(entries.last()));
        front.lemma_filter_push(entries.last(), here);
        assert(front.filter(here) == front) by {
            lemma_filter_all(front, path);
        }
    }
}

/// Filtering by path keeps all of some entries that belong to the file there.
proof fn lemma_filter_all(entries: Seq<EntryView>, path: Seq<char>)
    requires
        forall|i: int| 0 <= i < entries.len() ==> (#[trigger] entries[i]).filepath == path,
    ensures
        entries.filter(at_path(path)) == entries,
    decreases entries.len(),
{
    let here = at_path(path);
    if entries.len() == 0 {
        assert(entries.filter(here) =~= entries) by {
            reveal(Seq::filter);
        }
    } else {
        let front = entries.drop_last();
        assert forall|i: int| 0 <= i < front.len() implies (#[trigger] front[i]).filepath
            == path by {
            assert(front[i] == entries[i]);
        }
        lemma_filter_all(front, path);
        assert(entries =~= front.push(entries.last()));
        front.lemma_filter_push(entries.last(), here);
    }
}

/// The joined components neither start nor end with whitespace.
pub proof fn lemma_joined_is_tight(components: Seq<Seq<char>>)
    ensures
        joined(components).len() > 0 ==> !is_whitespace(joined(components).first())
            && !is_whitespace(joined(components).last()),
{
    lemma_trimmed_is_tight(components.flat_map(spaced()));
}

/// The component names with one space between each two.
pub open spec fn space_separated(components: Seq<Seq<char>>) -> Seq<char>
    decreases components.len(),
{
    if components.len() == 0 {
        Seq::empty()
    } else if components.len() == 1 {
        components[0]
    } else {
        space_separated(components.drop_last()) + " "@ + components.last()
    }
}

/// Each component followed by a space is the components with one space
/// between each two, and one space more.
proof fn lemma_spaced_is_separated(components: Seq<Seq<char>>)
    requires
        components.len() > 0,
    ensures
        components.flat_map(spaced()) == space_separated(components) + " "@,
        components.first().len() > 0 ==> space_separated(components).len() > 0
            && space_separated(components).first() == components.first().first(),
        components.last().len() > 0 ==> space_separated(components).len() > 0
            && space_separated(components).last() == components.last().last(),
    decreases components.len(),
{
    let front = components.drop_last();
    let last = components.last();
    assert(components =~= front.push(last));
    front.lemma_flat_map_push(spaced(), last);
    if components.len() == 1 {
        assert(front.flat_map(spaced()) =~= Seq::<char>::empty());
        assert(Seq::<char>::empty() + (last + " "@) =~= last + " "@);
    } else {
        lemma_spaced_is_separated(front);
        reveal_strlit(" ");
        assert((space_separated(front) + " "@) + (last + " "@) =~= (space_separated(front) + " "@
            + last) + " "@);
        assert(front.first() == components.first());
    }
}

/// Where the first component does not start with whitespace and the last does
/// not end with it, and neither is empty, the joined components are the
/// components with one space between each two.
pub proof fn lemma_joined_is_space_separated(components: Seq<Seq<char>>)
    requires
        components.len() > 0 ==> {
            &&& components.first().len() > 0
            &&& !is_whitespace(components.first().first())
            &&& components.last().len() > 0
            &&& !is_whitespace(components.last().last())
        },
    ensures
        joined(components) == space_separated(components),
{
    if components.len() == 0 {
        assert(components.flat_map(spaced()) =~= Seq::<char>::empty());
    } else {
        lemma_spaced_is_separated(components);
        reveal_strlit(" ");
        let inner = space_separated(components);
        let all = inner + " "@;
        assert(all.first() == inner.first());
        assert(trimmed_start(all) == all);
        assert(all.last() == ' ');
        assert(all.drop_last() =~= inner);
        assert(trimmed_end(all) == trimmed_end(inner));
        assert(trimmed_end(inner) == inner);
    }
}

} // verus!
