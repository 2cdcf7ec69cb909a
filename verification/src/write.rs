//! Saving the entries of a list file: what is to be written, and how. The
//! functions here decide; carrying a request out is left to the caller.

use crate::entry::LegacyAptSource;
use crate::render::file_text;
use crate::text::{replace, replaced};
use vstd::prelude::*;

verus! {

/// What a caller is to do in order to save a list file.
#[derive(Debug)]
pub enum WriteRequest {
    /// Remove the file at `path` if it exists, then create it and write
    /// `contents` to it.
    Replace { path: String, contents: String },
    /// Create the file at `path`, or empty it if it exists, and write
    /// `contents` to it.
    Create { path: String, contents: String },
    /// Run `program` with `arguments` and wait for it to end.
    Run { program: String, arguments: Vec<String> },
}

/// A [`WriteRequest`] in specifications.
pub enum RequestView {
    Replace { path: Seq<char>, contents: Seq<char> },
    Create { path: Seq<char>, contents: Seq<char> },
    Run { program: Seq<char>, arguments: Seq<Seq<char>> },
}

impl DeepView for WriteRequest {
    type V = RequestView;

    open spec fn deep_view(&self) -> RequestView {
        match self {
            WriteRequest::Replace { path, contents } => RequestView::Replace {
                path: path@,
                contents: contents@,
            },
            WriteRequest::Create { path, contents } => RequestView::Create {
                path: path@,
                contents: contents@,
            },
            WriteRequest::Run { program, arguments } => RequestView::Run {
                program: program@,
                arguments: arguments.deep_view(),
            },
        }
    }
}

impl View for WriteRequest {
    type V = RequestView;

    open spec fn view(&self) -> RequestView {
        self.deep_view()
    }
}

/// `text` with each line feed replaced by two backslashes and the letter `n`.
pub open spec fn escaped(text: Seq<char>) -> Seq<char> {
    replaced(text, '\n', "\\\\n"@)
}

/// The shell command that echoes `text`, escaped, into the file at `path`.
/// Neither the text nor the path is quoted.
pub open spec fn shell_command(text: Seq<char>, path: Seq<char>) -> Seq<char> {
    "echo -e "@ + escaped(text) + " > "@ + path
}

/// The arguments with which `pkexec` runs `shell_command(text, path)`.
pub open spec fn elevated_arguments(text: Seq<char>, path: Seq<char>) -> Seq<Seq<char>> {
    seq!["bash"@, "-c"@, shell_command(text, path)]
}

impl LegacyAptSource {
    /// The request that saves the list file of `target_source` in its place:
    /// to replace the file at its `filepath` by the lines of those of
    /// `legacy_sources_list` that belong to that file.
    pub fn save_to_apt(target_source: Self, legacy_sources_list: Vec<Self>) -> (request:
        WriteRequest)
        ensures
            request@ == (RequestView::Replace {
                path: target_source.filepath@,
                contents: file_text(legacy_sources_list.deep_view(), target_source.filepath@),
            }),
    {
        let contents = Self::render(&target_source, &legacy_sources_list);
        WriteRequest::Replace { path: target_source.filepath, contents }
    }

    /// The request that saves the list file of `target_source` at `filepath`:
    /// to create that file with the lines of those of `legacy_sources_list`
    /// that belong to the list file of `target_source`.
    pub fn save_to_file(target_source: Self, legacy_sources_list: Vec<Self>, filepath: &str) -> (request:
        WriteRequest)
        ensures
            request@ == (RequestView::Create {
                path: filepath@,
                contents: file_text(legacy_sources_list.deep_view(), target_source.filepath@),
            }),
    {
        let contents = Self::render(&target_source, &legacy_sources_list);
        WriteRequest::Create { path: String::from_str(filepath), contents }
    }

    /// The request that saves the list file of `target_source` at `filepath`
    /// with the rights of the administrator: to run `pkexec` with a shell that
    /// echoes the lines, with each line feed escaped, into that file.
    pub fn save_to_file_via_pkexec(
        target_source: Self,
        legacy_sources_list: Vec<Self>,
        filepath: &str,
    ) -> (request: WriteRequest)
        ensures
            request@ == (RequestView::Run {
                program: "pkexec"@,
                arguments: elevated_arguments(
                    file_text(legacy_sources_list.deep_view(), target_source.filepath@),
                    filepath@,
                ),
            }),
    {
        let contents = Self::render(&target_source, &legacy_sources_list);
        let mut command = String::from_str("echo -e ");
        command.append(replace(contents.as_str(), '\n', "\\\\n").as_str());
        command.append(" > ");
        command.append(filepath);
        let mut arguments: Vec<String> = Vec::new();
        arguments.push(String::from_str("bash"));
        arguments.push(String::from_str("-c"));
        arguments.push(command);
        assert(arguments.deep_view() =~= elevated_arguments(contents@, filepath@));
        WriteRequest::Run { program: String::from_str("pkexec"), arguments }
    }
}

} // verus!
