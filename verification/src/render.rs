//! Rendering entries as the lines of a list file.

use crate::entry::{EntryView, LegacyAptSource};
use vstd::prelude::*;

verus! {

/// The word that the line of an entry begins with.
pub open spec fn prefix_of(enabled: bool, is_source: bool) -> Seq<char> {
    match (enabled, is_source) {
        (true, false) => "deb"@,
        (true, true) => "deb-src"@,
        (false, false) => "#deb"@,
        (false, true) => "#deb-src"@,
    }
}

/// The line of an entry without its line feed: the prefix, the options in
/// brackets where there are any, then URL, suite and components, each after
/// one space.
pub open spec fn body_of(e: EntryView) -> Seq<char> {
    let head = prefix_of(e.enabled, e.is_source);
    match e.options {
        Some(options) => head + " ["@ + options + "] "@ + e.url + " "@ + e.suite + " "@
            + e.components,
        None => head + " "@ + e.url + " "@ + e.suite + " "@ + e.components,
    }
}

/// The line of an entry, with the line feed that ends it.
pub open spec fn line_of(e: EntryView) -> Seq<char> {
    body_of(e) + "\n"@
}

/// `line_of`, as a value.
pub open spec fn to_line() -> spec_fn(EntryView) -> Seq<char> {
    |e: EntryView| line_of(e)
}

/// Whether an entry belongs to the file at `path`: its `filepath` is `path`,
/// character for character.
pub open spec fn at_path(path: Seq<char>) -> spec_fn(EntryView) -> bool {
    |e: EntryView| e.filepath == path
}

/// The lines of `entries` one after the other, in order.
pub open spec fn text_of(entries: Seq<EntryView>) -> Seq<char> {
    entries.flat_map(to_line())
}

/// The text of the file at `path`: the lines of those of `entries` that belong
/// to it, in the order of `entries`.
pub open spec fn file_text(entries: Seq<EntryView>, path: Seq<char>) -> Seq<char> {
    text_of(entries.filter(at_path(path)))
}

impl LegacyAptSource {
    /// The word that the line of this entry begins with.
    pub fn prefix(&self) -> (word: &'static str)
        ensures
            word@ == prefix_of(self.enabled, self.is_source),
    {
        match (self.enabled, self.is_source) {
            (true, true) => "deb-src",
            (true, false) => "deb",
            (false, true) => "#deb-src",
            (false, false) => "#deb",
        }
    }

    /// The line of this entry, with the line feed that ends it.
    pub fn to_line(&self) -> (line: String)
        ensures
            line@ == line_of(self@),
    {
        let mut line = String::from_str(self.prefix());
        match &self.options {
            Some(options) => {
                line.append(" [");
                line.append(options.as_str());
                line.append("] ");
            },
            None => {
                line.append(" ");
            },
        }
        line.append(self.url.as_str());
        line.append(" ");
        line.append(self.suite.as_str());
        line.append(" ");
        line.append(self.components.as_str());
        line.append("\n");
        line
    }

    /// The text of the list file that `target` belongs to: the lines of those of
    /// `entries` whose `filepath` is that of `target`, in the order of
    /// `entries`.
    pub fn render(target: &LegacyAptSource, entries: &Vec<LegacyAptSource>) -> (text: String)
        ensures
            text@ == file_text(entries.deep_view(), target.filepath@),
    {
        let ghost all = entries.deep_view();
        let ghost here = at_path(target.filepath@);
        let mut text = String::new();
        let mut i: usize = 0;
        assert(all.take(0).filter(here) =~= Seq::<EntryView>::empty()) by {
            reveal(Seq::filter);
        }
        assert(text_of(Seq::<EntryView>::empty()) =~= Seq::<char>::empty());
        while i < entries.len()
            invariant
                i <= entries.len(),
                all == entries.deep_view(),
                here == at_path(target.filepath@),
                text@ == text_of(all.take(i as int).filter(here)),
            decreases entries.len() - i,
        {
            let entry = &entries[i];
            proof {
                let seen = all.take(i as int);
                assert(all.take(i + 1) =~= seen.push(all[i as int]));
                seen.lemma_filter_push(all[i as int], here);
                seen.filter(here).lemma_flat_map_push(to_line(), all[i as int]);
            }
            if entry.filepath == target.filepath {
                let line = entry.to_line();
                text.append(line.as_str());
            }
            i += 1;
        }
        assert(all.take(entries.len() as int) =~= all);
        text
    }
}

} // verus!
