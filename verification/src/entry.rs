//! The entry of a legacy source list, and the scanned lists that entries are
//! extracted from.

use vstd::prelude::*;

verus! {

/// One entry of a legacy APT source list.
///
/// `enabled`, `is_source`, `components`, `options`, `suite` and `url` are its
/// content: they decide the line that the entry is written as. `filepath` and
/// `name` say where it belongs.
#[derive(Debug)]
pub struct LegacyAptSource {
    /// Whether the line is active, rather than commented out.
    pub enabled: bool,
    /// Whether the entry names source packages, rather than binary ones.
    pub is_source: bool,
    /// The component names, separated by single spaces.
    pub components: String,
    /// The path of the list file that holds the entry.
    pub filepath: String,
    /// A short name for the entry's origin.
    pub name: String,
    /// The text between the brackets, where the line has any.
    pub options: Option<String>,
    /// The distribution or release.
    pub suite: String,
    /// The base URL of the repository.
    pub url: String,
}

/// A [`LegacyAptSource`] in specifications.
pub struct EntryView {
    pub enabled: bool,
    pub is_source: bool,
    pub components: Seq<char>,
    pub filepath: Seq<char>,
    pub name: Seq<char>,
    pub options: Option<Seq<char>>,
    pub suite: Seq<char>,
    pub url: Seq<char>,
}

impl DeepView for LegacyAptSource {
    type V = EntryView;

    open spec fn deep_view(&self) -> EntryView {
        EntryView {
            enabled: self.enabled,
            is_source: self.is_source,
            components: self.components@,
            filepath: self.filepath@,
            name: self.name@,
            options: self.options.deep_view(),
            suite: self.suite@,
            url: self.url@,
        }
    }
}

impl View for LegacyAptSource {
    type V = EntryView;

    open spec fn view(&self) -> EntryView {
        self.deep_view()
    }
}

impl EntryView {
    /// Whether `self` and `other` agree in the six content fields.
    pub open spec fn same_content(self, other: EntryView) -> bool {
        &&& self.enabled == other.enabled
        &&& self.is_source == other.is_source
        &&& self.components == other.components
        &&& self.options == other.options
        &&& self.suite == other.suite
        &&& self.url == other.url
    }

    /// `self` as an active entry.
    pub open spec fn activated(self) -> EntryView {
        EntryView { enabled: true, ..self }
    }
}

/// A line of a source list that names a repository, decoded into its parts.
#[derive(Debug)]
pub struct Directive {
    /// Whether the line names source packages, rather than binary ones.
    pub source: bool,
    /// The text between the brackets, where the line has any.
    pub options: Option<String>,
    /// The base URL of the repository.
    pub url: String,
    /// The distribution or release.
    pub suite: String,
    /// The component names, in order.
    pub components: Vec<String>,
    /// A short name for the repository, derived from its URL.
    pub filename: String,
}

/// A [`Directive`] in specifications.
pub struct DirectiveView {
    pub source: bool,
    pub options: Option<Seq<char>>,
    pub url: Seq<char>,
    pub suite: Seq<char>,
    pub components: Seq<Seq<char>>,
    pub filename: Seq<char>,
}

impl DeepView for Directive {
    type V = DirectiveView;

    open spec fn deep_view(&self) -> DirectiveView {
        DirectiveView {
            source: self.source,
            options: self.options.deep_view(),
            url: self.url@,
            suite: self.suite@,
            components: self.components.deep_view(),
            filename: self.filename@,
        }
    }
}

impl View for Directive {
    type V = DirectiveView;

    open spec fn view(&self) -> DirectiveView {
        self.deep_view()
    }
}

/// A line of a scanned source list.
#[derive(Debug)]
pub enum SourceLine {
    /// A comment, with its text.
    Comment(String),
    /// A line that holds nothing.
    Empty,
    /// An active line that names a repository.
    Entry(Directive),
}

/// A [`SourceLine`] in specifications.
pub enum LineView {
    Comment(Seq<char>),
    Empty,
    Entry(DirectiveView),
}

impl DeepView for SourceLine {
    type V = LineView;

    open spec fn deep_view(&self) -> LineView {
        match self {
            SourceLine::Comment(text) => LineView::Comment(text@),
            SourceLine::Empty => LineView::Empty,
            SourceLine::Entry(directive) => LineView::Entry(directive@),
        }
    }
}

impl View for SourceLine {
    type V = LineView;

    open spec fn view(&self) -> LineView {
        self.deep_view()
    }
}

/// A scanned source list: the path of the file and its lines, in order.
#[derive(Debug)]
pub struct SourcesList {
    /// The path of the file.
    pub path: String,
    /// The lines of the file, in order.
    pub lines: Vec<SourceLine>,
}

/// A [`SourcesList`] in specifications.
pub struct ListView {
    pub path: Seq<char>,
    pub lines: Seq<LineView>,
}

impl DeepView for SourcesList {
    type V = ListView;

    open spec fn deep_view(&self) -> ListView {
        ListView { path: self.path@, lines: self.lines.deep_view() }
    }
}

impl View for SourcesList {
    type V = ListView;

    open spec fn view(&self) -> ListView {
        self.deep_view()
    }
}

impl LegacyAptSource {
    /// Whether `self` and `other` agree in the six content fields.
    pub fn has_same_content(&self, other: &LegacyAptSource) -> (same: bool)
        ensures
            same == self@.same_content(other@),
    {
        let same_options = match (&self.options, &other.options) {
            (Some(mine), Some(theirs)) => *mine == *theirs,
            (None, None) => true,
            _ => false,
        };
        self.enabled == other.enabled && self.is_source == other.is_source && self.components
            == other.components && same_options && self.suite == other.suite && self.url
            == other.url
    }
}

impl Clone for LegacyAptSource {
    fn clone(&self) -> (copy: Self)
        ensures
            copy@ == self@,
    {
        LegacyAptSource {
            enabled: self.enabled,
            is_source: self.is_source,
            components: self.components.clone(),
            filepath: self.filepath.clone(),
            name: self.name.clone(),
            options: match &self.options {
                Some(text) => Some(text.clone()),
                None => None,
            },
            suite: self.suite.clone(),
            url: self.url.clone(),
        }
    }
}

impl Default for LegacyAptSource {
    fn default() -> (entry: Self)
        ensures
            !entry.enabled,
            !entry.is_source,
            entry.components@.len() == 0,
            entry.filepath@.len() == 0,
            entry.name@.len() == 0,
            entry.options is None,
            entry.suite@.len() == 0,
            entry.url@.len() == 0,
    {
        LegacyAptSource {
            enabled: false,
            is_source: false,
            components: String::new(),
            filepath: String::new(),
            name: String::new(),
            options: None,
            suite: String::new(),
            url: String::new(),
        }
    }
}

} // verus!
