//! Parsers given as function values: what a parser may return, the grammar
//! that it computes if it computes one, and the extractions that it may give.

use crate::entry::{Directive, DirectiveView, EntryView, LineView, ListView};
use crate::extract::{
    active, active_entries, candidates, disabled_at, entries_of_line, entries_of_list,
    entries_of_lists, entry_of, lemma_no_grammar_no_entries, line_entries, list_entries,
    no_grammar, Grammar,
};
use vstd::prelude::*;

verus! {

/// Whether `parse` computes `grammar`: whatever it returns for a text is what
/// `grammar` gives for that text.
pub open spec fn computes<F: Fn(&str) -> Option<Directive>>(parse: &F, grammar: Grammar) -> bool {
    forall|text: &str, found: Option<Directive>| #[trigger]
        call_ensures(*parse, (text,), found) ==> found.deep_view() == grammar(text@)
}

/// Whether `parse` may return `outcome` for `text`.
pub open spec fn may_return<F: Fn(&str) -> Option<Directive>>(
    parse: &F,
    text: Seq<char>,
    outcome: Option<DirectiveView>,
) -> bool {
    exists|given: &str, found: Option<Directive>| #[trigger]
        call_ensures(*parse, (given,), found) && given@ == text && found.deep_view() == outcome
}

/// Whether `outcomes` are what `parse` may return for `texts`, one by one.
pub open spec fn may_decode<F: Fn(&str) -> Option<Directive>>(
    parse: &F,
    texts: Seq<Seq<char>>,
    outcomes: Seq<Option<DirectiveView>>,
) -> bool {
    &&& outcomes.len() == texts.len()
    &&& forall|k: int|
        0 <= k < outcomes.len() ==> may_return(parse, texts[k], #[trigger] outcomes[k])
}

/// An outcome, as it is.
pub open spec fn itself() -> spec_fn(Option<DirectiveView>) -> Option<DirectiveView> {
    |outcome: Option<DirectiveView>| outcome
}

/// The decoded lines among `outcomes`, in order.
pub open spec fn accepted(outcomes: Seq<Option<DirectiveView>>) -> Seq<DirectiveView> {
    outcomes.filter_map(itself())
}

/// Whether `found` are entries that `parse` may give for a comment in the file
/// at `path`: a disabled entry for each candidate for which `parse` returned a
/// decoded line, in order.
pub open spec fn comment_gives<F: Fn(&str) -> Option<Directive>>(
    parse: &F,
    comment: Seq<char>,
    path: Seq<char>,
    found: Seq<EntryView>,
) -> bool {
    exists|outcomes: Seq<Option<DirectiveView>>| #[trigger]
        may_decode(parse, candidates(comment), outcomes) && found == accepted(
            outcomes,
        ).map_values(disabled_at(path))
}

/// Whether `found` are entries that `parse` may give for one line of the file
/// at `path`.
pub open spec fn line_gives<F: Fn(&str) -> Option<Directive>>(
    parse: &F,
    line: LineView,
    path: Seq<char>,
    found: Seq<EntryView>,
) -> bool {
    match line {
        LineView::Entry(directive) => found == seq![entry_of(true, directive, path)],
        LineView::Comment(text) => comment_gives(parse, text, path, found),
        LineView::Empty => found == Seq::<EntryView>::empty(),
    }
}

/// Whether `parts` are entries that `parse` may give for the lines of `list`,
/// line by line.
pub open spec fn lines_give<F: Fn(&str) -> Option<Directive>>(
    parse: &F,
    list: ListView,
    parts: Seq<Seq<EntryView>>,
) -> bool {
    &&& parts.len() == list.lines.len()
    &&& forall|j: int|
        0 <= j < parts.len() ==> line_gives(parse, list.lines[j], list.path, #[trigger] parts[j])
}

/// Whether `found` are entries that `parse` may give for `list`: those of its
/// lines, in order.
pub open spec fn list_gives<F: Fn(&str) -> Option<Directive>>(
    parse: &F,
    list: ListView,
    found: Seq<EntryView>,
) -> bool {
    exists|parts: Seq<Seq<EntryView>>| #[trigger]
        lines_give(parse, list, parts) && found == parts.flatten()
}

/// Whether `parts` are entries that `parse` may give for `lists`, list by
/// list.
pub open spec fn lists_give<F: Fn(&str) -> Option<Directive>>(
    parse: &F,
    lists: Seq<ListView>,
    parts: Seq<Seq<EntryView>>,
) -> bool {
    &&& parts.len() == lists.len()
    &&& forall|i: int| 0 <= i < parts.len() ==> list_gives(parse, lists[i], #[trigger] parts[i])
}

/// Whether `found` is an extraction of `lists` by `parse`: the entries of each
/// list in the order of the lists, those of a list being the entries of its lines
/// in order. A line that names a repository gives one active entry; a comment
/// gives a disabled entry for each candidate for which `parse` returned a
/// decoded line; another line gives nothing.
///
/// It is opaque: [`lemma_extraction_active`] and
/// [`lemma_extraction_under_grammar`] say what follows from it.
#[verifier::opaque]
pub open spec fn is_extraction<F: Fn(&str) -> Option<Directive>>(
    parse: &F,
    lists: Seq<ListView>,
    found: Seq<EntryView>,
) -> bool {
    exists|parts: Seq<Seq<EntryView>>| #[trigger]
        lists_give(parse, lists, parts) && found == parts.flatten()
}

/// The decoded lines among what a grammar gives for some texts are the texts
/// that it decodes, decoded.
proof fn lemma_accepted_of_grammar(texts: Seq<Seq<char>>, grammar: Grammar)
    ensures
        accepted(texts.map_values(grammar)) == texts.filter_map(grammar),
    decreases texts.len(),
{
    if texts.len() > 0 {
        let front = texts.drop_last();
        lemma_accepted_of_grammar(front, grammar);
        assert(texts.map_values(grammar).drop_last() =~= front.map_values(grammar));
    }
}

/// Where `parse` computes `grammar`, what it may return for some texts is what
/// `grammar` gives for them.
proof fn lemma_decoded_by_grammar<F: Fn(&str) -> Option<Directive>>(
    parse: &F,
    texts: Seq<Seq<char>>,
    outcomes: Seq<Option<DirectiveView>>,
    grammar: Grammar,
)
    requires
        may_decode(parse, texts, outcomes),
        computes(parse, grammar),
    ensures
        outcomes == texts.map_values(grammar),
{
    assert forall|k: int| 0 <= k < outcomes.len() implies outcomes[k] == grammar(texts[k]) by {
        assert(may_return(parse, texts[k], outcomes[k]));
        let (given, found) = choose|given: &str, found: Option<Directive>| #[trigger]
            call_ensures(*parse, (given,), found) && given@ == texts[k] && found.deep_view()
                == outcomes[k];
        assert(found.deep_view() == grammar(given@));
    }
    assert(outcomes =~= texts.map_values(grammar));
}

/// Where `parse` computes `grammar`, the entries that it may give for a line
/// are the entries of the line under `grammar`.
proof fn lemma_line_under_grammar<F: Fn(&str) -> Option<Directive>>(
    parse: &F,
    line: LineView,
    path: Seq<char>,
    found: Seq<EntryView>,
    grammar: Grammar,
)
    requires
        line_gives(parse, line, path, found),
        computes(parse, grammar),
    ensures
        found == entries_of_line(line, path, grammar),
{
    if let LineView::Comment(text) = line {
        let outcomes = choose|outcomes: Seq<Option<DirectiveView>>| #[trigger]
            may_decode(parse, candidates(text), outcomes) && found == accepted(
                outcomes,
            ).map_values(disabled_at(path));
        lemma_decoded_by_grammar(parse, candidates(text), outcomes, grammar);
        lemma_accepted_of_grammar(candidates(text), grammar);
    }
}

/// Where `parse` computes `grammar`, the entries that it may give for a list
/// are the entries of the list under `grammar`.
proof fn lemma_list_under_grammar<F: Fn(&str) -> Option<Directive>>(
    parse: &F,
    list: ListView,
    found: Seq<EntryView>,
    grammar: Grammar,
)
    requires
        list_gives(parse, list, found),
        computes(parse, grammar),
    ensures
        found == entries_of_list(list, grammar),
{
    let parts = choose|parts: Seq<Seq<EntryView>>| #[trigger]
        lines_give(parse, list, parts) && found == parts.flatten();
    let each = line_entries(list.path, grammar);
    assert forall|j: int| 0 <= j < parts.len() implies parts[j] == list.lines.map_values(each)[j] by {
        lemma_line_under_grammar(parse, list.lines[j], list.path, parts[j], grammar);
    }
    assert(parts =~= list.lines.map_values(each));
}

/// Where `parse` computes a grammar, an extraction by `parse` is the entries
/// of the lists under that grammar.
pub proof fn lemma_extraction_under_grammar<F: Fn(&str) -> Option<Directive>>(
    parse: &F,
    lists: Seq<ListView>,
    found: Seq<EntryView>,
    grammar: Grammar,
)
    requires
        is_extraction(parse, lists, found),
        computes(parse, grammar),
    ensures
        found == entries_of_lists(lists, grammar),
{
    reveal(is_extraction);
    let parts = choose|parts: Seq<Seq<EntryView>>| #[trigger]
        lists_give(parse, lists, parts) && found == parts.flatten();
    let each = list_entries(grammar);
    assert forall|i: int| 0 <= i < parts.len() implies parts[i] == lists.map_values(each)[i] by {
        lemma_list_under_grammar(parse, lists[i], parts[i], grammar);
    }
    assert(parts =~= lists.map_values(each));
}

/// The active ones among some entries, as a value.
pub open spec fn only_active() -> spec_fn(Seq<EntryView>) -> Seq<EntryView> {
    |entries: Seq<EntryView>| entries.filter(active())
}

/// The active entries of some parts put together are the active entries of
/// each part, put together.
proof fn lemma_active_of_parts(parts: Seq<Seq<EntryView>>)
    ensures
        parts.flatten().filter(active()) == parts.map_values(only_active()).flatten(),
    decreases parts.len(),
{
    if parts.len() == 0 {
        assert(parts.flatten().filter(active()) =~= Seq::<EntryView>::empty()) by {
            reveal(Seq::filter);
        }
        assert(parts.map_values(only_active()) =~= Seq::<Seq<EntryView>>::empty());
    } else {
        let front = parts.drop_last();
        let last = parts.last();
        lemma_active_of_parts(front);
        assert(parts =~= front.push(last));
        front.lemma_flatten_push(last);
        Seq::filter_distributes_over_add(front.flatten(), last, active());
        front.lemma_push_map_commute(only_active(), last);
        front.map_values(only_active()).lemma_flatten_push(last.filter(active()));
    }
}

/// Whatever `parse` returns, the active entries that it may give for a line
/// are the entries of the line under the grammar that accepts no line.
proof fn lemma_line_active<F: Fn(&str) -> Option<Directive>>(
    parse: &F,
    line: LineView,
    path: Seq<char>,
    found: Seq<EntryView>,
)
    requires
        line_gives(parse, line, path, found),
    ensures
        found.filter(active()) == entries_of_line(line, path, no_grammar()),
{
    match line {
        LineView::Entry(directive) => {
            let entry = entry_of(true, directive, path);
            Seq::<EntryView>::empty().lemma_filter_push(entry, active());
            assert(Seq::<EntryView>::empty().filter(active()) =~= Seq::<EntryView>::empty()) by {
                reveal(Seq::filter);
            }
            assert(Seq::<EntryView>::empty().push(entry) =~= seq![entry]);
            assert(found.filter(active()) =~= seq![entry]);
        },
        LineView::Comment(text) => {
            lemma_no_grammar_no_entries(text, path);
            found.lemma_all_neg_filter_empty(active());
        },
        LineView::Empty => {
            assert(found.filter(active()) =~= Seq::<EntryView>::empty()) by {
                reveal(Seq::filter);
            }
        },
    }
}

/// Whatever `parse` returns, the active entries that it may give for a list
/// are the entries of the list under the grammar that accepts no line.
proof fn lemma_list_active<F: Fn(&str) -> Option<Directive>>(
    parse: &F,
    list: ListView,
    found: Seq<EntryView>,
)
    requires
        list_gives(parse, list, found),
    ensures
        found.filter(active()) == entries_of_list(list, no_grammar()),
{
    let parts = choose|parts: Seq<Seq<EntryView>>| #[trigger]
        lines_give(parse, list, parts) && found == parts.flatten();
    let each = line_entries(list.path, no_grammar());
    lemma_active_of_parts(parts);
    assert forall|j: int| 0 <= j < parts.len() implies parts.map_values(only_active())[j]
        == list.lines.map_values(each)[j] by {
        lemma_line_active(parse, list.lines[j], list.path, parts[j]);
    }
    assert(parts.map_values(only_active()) =~= list.lines.map_values(each));
}

/// Whatever `parse` returns, the active entries of an extraction are the
/// active entries of the lists.
pub proof fn lemma_extraction_active<F: Fn(&str) -> Option<Directive>>(
    parse: &F,
    lists: Seq<ListView>,
    found: Seq<EntryView>,
)
    requires
        is_extraction(parse, lists, found),
    ensures
        found.filter(active()) == active_entries(lists),
{
    reveal(is_extraction);
    let parts = choose|parts: Seq<Seq<EntryView>>| #[trigger]
        lists_give(parse, lists, parts) && found == parts.flatten();
    let each = list_entries(no_grammar());
    lemma_active_of_parts(parts);
    assert forall|i: int| 0 <= i < parts.len() implies parts.map_values(only_active())[i]
        == lists.map_values(each)[i] by {
        lemma_list_active(parse, lists[i], parts[i]);
    }
    assert(parts.map_values(only_active()) =~= lists.map_values(each));
}

} // verus!
