//! Extracting entries from scanned source lists: one active entry for each
//! line that names a repository, and one disabled entry for each commented-out
//! line that the grammar of such lines accepts.

use crate::entry::{
    Directive, DirectiveView, EntryView, LegacyAptSource, LineView, ListView, SourceLine,
    SourcesList,
};
use crate::parser::{
    accepted, comment_gives, computes, is_extraction, lemma_extraction_active,
    lemma_extraction_under_grammar, line_gives, lines_give, list_gives, lists_give, may_decode,
    may_return,
};
use crate::text::{
    lines, lines_of, starts_with, trim, trim_start_matches, trimmed, without_leading,
};
use vstd::prelude::*;

verus! {

/// A grammar of lines that name a repository: what a line decodes to, if it
/// is such a line.
pub type Grammar = spec_fn(Seq<char>) -> Option<DirectiveView>;

/// The grammar that accepts no line.
pub open spec fn no_grammar() -> Grammar {
    |text: Seq<char>| None
}

/// Whether a line of a comment begins as a commented-out line that names a
/// repository does: with `#deb` or with `#deb-src`.
pub open spec fn is_marked(line: Seq<char>) -> bool {
    "#deb"@.is_prefix_of(line) || "#deb-src"@.is_prefix_of(line)
}

/// `is_marked`, as a value.
pub open spec fn marked() -> spec_fn(Seq<char>) -> bool {
    |line: Seq<char>| is_marked(line)
}

/// A line of a comment without the comment signs that it begins with.
pub open spec fn uncommented(line: Seq<char>) -> Seq<char> {
    without_leading(line, '#')
}

/// `uncommented`, as a value.
pub open spec fn uncomment() -> spec_fn(Seq<char>) -> Seq<char> {
    |line: Seq<char>| uncommented(line)
}

/// The texts in a comment that may be commented-out lines naming a
/// repository: its marked lines, each without its leading comment signs, in
/// order.
pub open spec fn candidates(comment: Seq<char>) -> Seq<Seq<char>> {
    lines_of(comment).filter(marked()).map_values(uncomment())
}

/// A component name followed by one space.
pub open spec fn spaced() -> spec_fn(Seq<char>) -> Seq<char> {
    |component: Seq<char>| component + " "@
}

/// The component names as one text: each followed by a space, and the whole
/// without leading and trailing whitespace.
pub open spec fn joined(components: Seq<Seq<char>>) -> Seq<char> {
    trimmed(components.flat_map(spaced()))
}

/// The entry for a decoded line of the file at `path`.
pub open spec fn entry_of(enabled: bool, directive: DirectiveView, path: Seq<char>) -> EntryView {
    EntryView {
        enabled,
        is_source: directive.source,
        components: joined(directive.components),
        filepath: path,
        name: directive.filename,
        options: directive.options,
        suite: directive.suite,
        url: directive.url,
    }
}

/// The disabled entry for a decoded line of the file at `path`, as a value.
pub open spec fn disabled_at(path: Seq<char>) -> spec_fn(DirectiveView) -> EntryView {
    |directive: DirectiveView| entry_of(false, directive, path)
}

/// The entries of a comment in the file at `path`: a disabled entry for each
/// candidate that `grammar` accepts, in order.
pub open spec fn disabled_entries(comment: Seq<char>, path: Seq<char>, grammar: Grammar) -> Seq<
    EntryView,
> {
    candidates(comment).filter_map(grammar).map_values(disabled_at(path))
}

/// The entries of one line of the file at `path`.
pub open spec fn entries_of_line(line: LineView, path: Seq<char>, grammar: Grammar) -> Seq<
    EntryView,
> {
    match line {
        LineView::Entry(directive) => seq![entry_of(true, directive, path)],
        LineView::Comment(text) => disabled_entries(text, path, grammar),
        LineView::Empty => Seq::empty(),
    }
}

/// `entries_of_line` for the file at `path`, as a value.
pub open spec fn line_entries(path: Seq<char>, grammar: Grammar) -> spec_fn(LineView) -> Seq<
    EntryView,
> {
    |line: LineView| entries_of_line(line, path, grammar)
}

/// The entries of a list: those of its lines, in order.
pub open spec fn entries_of_list(list: ListView, grammar: Grammar) -> Seq<EntryView> {
    list.lines.flat_map(line_entries(list.path, grammar))
}

/// `entries_of_list`, as a value.
pub open spec fn list_entries(grammar: Grammar) -> spec_fn(ListView) -> Seq<EntryView> {
    |list: ListView| entries_of_list(list, grammar)
}

/// The entries of some lists: those of each list, in the order of the lists.
pub open spec fn entries_of_lists(lists: Seq<ListView>, grammar: Grammar) -> Seq<EntryView> {
    lists.flat_map(list_entries(grammar))
}

/// Whether an entry is active, as a value.
pub open spec fn active() -> spec_fn(EntryView) -> bool {
    |e: EntryView| e.enabled
}

/// The active entries of some lists: one for each line that names a
/// repository, in the order of the lists and of their lines.
pub open spec fn active_entries(lists: Seq<ListView>) -> Seq<EntryView> {
    entries_of_lists(lists, no_grammar())
}

/// Under the grammar that accepts no line, a comment has no entries.
pub proof fn lemma_no_grammar_no_entries(comment: Seq<char>, path: Seq<char>)
    ensures
        disabled_entries(comment, path, no_grammar()) == Seq::<EntryView>::empty(),
{
    lemma_nothing_accepted(candidates(comment));
    assert(disabled_entries(comment, path, no_grammar()) =~= Seq::<EntryView>::empty());
}

/// The grammar that accepts no line decodes none of `texts`.
proof fn lemma_nothing_accepted(texts: Seq<Seq<char>>)
    ensures
        texts.filter_map(no_grammar()) == Seq::<DirectiveView>::empty(),
    decreases texts.len(),
{
    if texts.len() > 0 {
        lemma_nothing_accepted(texts.drop_last());
    }
}

/// The candidates of a comment: its lines that begin with `#deb` or
/// `#deb-src`, each without its leading comment signs, in order.
pub fn disabled_candidates(comment: &str) -> (out: Vec<String>)
    ensures
        out.deep_view() == candidates(comment@),
{
    let found = lines(comment);
    let ghost all = found.deep_view();
    let mut out: Vec<String> = Vec::new();
    let mut i: usize = 0;
    assert(all.take(0).filter(marked()) =~= Seq::<Seq<char>>::empty()) by {
        reveal(Seq::filter);
    }
    assert(out.deep_view() =~= all.take(0).filter(marked()).map_values(uncomment()));
    while i < found.len()
        invariant
            i <= found.len(),
            all == found.deep_view(),
            all == lines_of(comment@),
            out.deep_view() == all.take(i as int).filter(marked()).map_values(uncomment()),
        decreases found.len() - i,
    {
        let line = found[i].as_str();
        let ghost before = out.deep_view();
        proof {
            let seen = all.take(i as int);
            assert(all.take(i + 1) =~= seen.push(all[i as int]));
            seen.lemma_filter_push(all[i as int], marked());
            seen.filter(marked()).lemma_push_map_commute(uncomment(), all[i as int]);
        }
        if starts_with(line, "#deb") || starts_with(line, "#deb-src") {
            let text = trim_start_matches(line, '#');
            out.push(text);
            assert(out.deep_view() =~= before.push(uncommented(all[i as int])));
        }
        i += 1;
    }
    assert(all.take(found.len() as int) =~= all);
    out
}

/// The component names as one text: each followed by a space, and the whole
/// without leading and trailing whitespace.
pub fn join_components(components: &Vec<String>) -> (text: String)
    ensures
        text@ == joined(components.deep_view()),
{
    let ghost all = components.deep_view();
    let mut text = String::new();
    let mut i: usize = 0;
    assert(all.take(0).flat_map(spaced()) =~= Seq::<char>::empty());
    while i < components.len()
        invariant
            i <= components.len(),
            all == components.deep_view(),
            text@ == all.take(i as int).flat_map(spaced()),
        decreases components.len() - i,
    {
        proof {
            all.lemma_flat_map_take_append(spaced(), i as int);
        }
        text.append(components[i].as_str());
        text.append(" ");
        i += 1;
    }
    assert(all.take(components.len() as int) =~= all);
    trim(text.as_str())
}

impl LegacyAptSource {
    /// The entry for a decoded line of the file at `filepath`: active if
    /// `enabled`, with the fields of `directive` and its components joined.
    pub fn from_directive(enabled: bool, directive: &Directive, filepath: &str) -> (entry:
        LegacyAptSource)
        ensures
            entry@ == entry_of(enabled, directive@, filepath@),
    {
        LegacyAptSource {
            enabled,
            is_source: directive.source,
            components: join_components(&directive.components),
            filepath: String::from_str(filepath),
            name: directive.filename.clone(),
            options: match &directive.options {
                Some(text) => Some(text.clone()),
                None => None,
            },
            suite: directive.suite.clone(),
            url: directive.url.clone(),
        }
    }

    /// The entries of `lists`, in the order of the lists and of their lines.
    ///
    /// A line that names a repository gives one active entry. A comment gives
    /// one disabled entry for each of its candidates (see [`candidates`]) for
    /// which `parse` returns a decoded line; the others are passed over. Other
    /// lines give nothing.
    ///
    /// The result is an extraction of `lists` by `parse`, whatever `parse`
    /// returns. So its active entries are those of the lines that name a
    /// repository; and where `parse` computes a grammar, it is the entries of
    /// `lists` under that grammar.
    pub fn get_legacy_sources<F: Fn(&str) -> Option<Directive>>(
        lists: &Vec<SourcesList>,
        parse: F,
    ) -> (out: Vec<LegacyAptSource>)
        requires
            forall|text: &str| call_requires(parse, (text,)),
        ensures
            is_extraction(&parse, lists.deep_view(), out.deep_view()),
            out.deep_view().filter(active()) == active_entries(lists.deep_view()),
            forall|grammar: Grammar| #[trigger]
                computes(&parse, grammar) ==> out.deep_view() == entries_of_lists(
                    lists.deep_view(),
                    grammar,
                ),
    {
        let ghost all = lists.deep_view();
        let ghost mut parts = Seq::<Seq<EntryView>>::empty();
        let mut out: Vec<LegacyAptSource> = Vec::new();
        let mut i: usize = 0;
        assert(out.deep_view() =~= parts.flatten());
        while i < lists.len()
            invariant
                i <= lists.len(),
                all == lists.deep_view(),
                forall|text: &str| call_requires(parse, (text,)),
                lists_give(&parse, all.take(i as int), parts),
                out.deep_view() == parts.flatten(),
            decreases lists.len() - i,
        {
            let added = extend_from_list(&mut out, &lists[i], &parse);
            proof {
                parts.lemma_flatten_push(added@);
                parts = parts.push(added@);
            }
            i += 1;
        }
        proof {
            assert(all.take(lists.len() as int) =~= all);
            assert(is_extraction(&parse, all, out.deep_view())) by {
                reveal(is_extraction);
            }
            lemma_extraction_active(&parse, all, out.deep_view());
            assert forall|grammar: Grammar| #[trigger] computes(&parse, grammar) implies out.deep_view()
                == entries_of_lists(all, grammar) by {
                lemma_extraction_under_grammar(&parse, all, out.deep_view(), grammar);
            }
        }
        out
    }
}

/// Appends to `out` the entries that `parse` gives for `list`, and says which
/// they are.
fn extend_from_list<F: Fn(&str) -> Option<Directive>>(
    out: &mut Vec<LegacyAptSource>,
    list: &SourcesList,
    parse: &F,
) -> (added: Ghost<Seq<EntryView>>)
    requires
        forall|text: &str| call_requires(*parse, (text,)),
    ensures
        list_gives(parse, list@, added@),
        final(out).deep_view() == old(out).deep_view() + added@,
{
    let ghost base = out.deep_view();
    let ghost all = list.lines.deep_view();
    let ghost mut parts = Seq::<Seq<EntryView>>::empty();
    let mut i: usize = 0;
    assert(out.deep_view() =~= base + parts.flatten());
    while i < list.lines.len()
        invariant
            i <= list.lines.len(),
            all == list.lines.deep_view(),
            forall|text: &str| call_requires(*parse, (text,)),
            lines_give(parse, ListView { path: list.path@, lines: all.take(i as int) }, parts),
            out.deep_view() == base + parts.flatten(),
        decreases list.lines.len() - i,
    {
        let ghost before = out.deep_view();
        let ghost piece;
        match &list.lines[i] {
            SourceLine::Entry(directive) => {
                let entry = LegacyAptSource::from_directive(true, directive, list.path.as_str());
                out.push(entry);
                proof {
                    piece = seq![entry_of(true, directive@, list.path@)];
                    assert(out.deep_view() =~= before + piece);
                }
            },
            SourceLine::Comment(text) => {
                let added = extend_from_comment(out, text.as_str(), list.path.as_str(), parse);
                proof {
                    piece = added@;
                }
            },
            SourceLine::Empty => {
                proof {
                    piece = Seq::<EntryView>::empty();
                    assert(out.deep_view() =~= before + piece);
                }
            },
        }
        proof {
            assert(line_gives(parse, all[i as int], list.path@, piece));
            parts.lemma_flatten_push(piece);
            assert(base + (parts.flatten() + piece) =~= (base + parts.flatten()) + piece);
            parts = parts.push(piece);
        }
        i += 1;
    }
    assert(all.take(list.lines.len() as int) =~= all);
    Ghost(parts.flatten())
}

/// Appends to `out` a disabled entry for each candidate of `comment` for which
/// `parse` returns a decoded line, and says which they are.
fn extend_from_comment<F: Fn(&str) -> Option<Directive>>(
    out: &mut Vec<LegacyAptSource>,
    comment: &str,
    path: &str,
    parse: &F,
) -> (added: Ghost<Seq<EntryView>>)
    requires
        forall|text: &str| call_requires(*parse, (text,)),
    ensures
        comment_gives(parse, comment@, path@, added@),
        final(out).deep_view() == old(out).deep_view() + added@,
{
    let ghost base = out.deep_view();
    let texts = disabled_candidates(comment);
    let ghost all = texts.deep_view();
    let ghost mut outcomes = Seq::<Option<DirectiveView>>::empty();
    let mut i: usize = 0;
    assert(out.deep_view() =~= base + accepted(outcomes).map_values(disabled_at(path@)));
    while i < texts.len()
        invariant
            i <= texts.len(),
            all == texts.deep_view(),
            all == candidates(comment@),
            forall|text: &str| call_requires(*parse, (text,)),
            may_decode(parse, all.take(i as int), outcomes),
            out.deep_view() == base + accepted(outcomes).map_values(disabled_at(path@)),
        decreases texts.len() - i,
    {
        let ghost before = out.deep_view();
        let text = texts[i].as_str();
        let found = parse(text);
        proof {
            let outcome = found.deep_view();
            let sofar = accepted(outcomes);
            assert(may_return(parse, all[i as int], outcome));
            assert(outcomes.push(outcome).drop_last() =~= outcomes);
            match outcome {
                Some(directive) => {
                    assert(sofar + seq![directive] =~= sofar.push(directive));
                    sofar.lemma_push_map_commute(disabled_at(path@), directive);
                    assert(base + sofar.map_values(disabled_at(path@)).push(
                        entry_of(false, directive, path@),
                    ) =~= (base + sofar.map_values(disabled_at(path@))).push(
                        entry_of(false, directive, path@),
                    ));
                },
                None => {},
            }
            outcomes = outcomes.push(outcome);
        }
        match &found {
            Some(directive) => {
                let entry = LegacyAptSource::from_directive(false, directive, path);
                out.push(entry);
                assert(out.deep_view() =~= before.push(entry_of(false, directive@, path@)));
            },
            None => {},
        }
        i += 1;
    }
    assert(all.take(texts.len() as int) =~= all);
    Ghost(accepted(outcomes).map_values(disabled_at(path@)))
}

} // verus!
