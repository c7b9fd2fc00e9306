//! The extraction pipeline: from files, given as a path and what was read
//! from it, to the connections and the errors found in them.
//!
//! A file is classified by its extension; the extension decides which formats
//! are searched for. Reading the files is left to the caller: the pipeline
//! takes the text of each file, or the reason why it could not be read.

use crate::extractor::{
    candidates, extract_candidates, found_candidates, pattern, pattern_of, regex_matches,
    Candidate, CandidateView, Format,
};
use crate::resolver::{
    candidates_findings, findings_of, joined, no_findings, resolve_all, Connection,
    ConnectionView, ErrorView, ExtractionError, Findings,
};
use crate::text::{chars_of, same_text};
use vstd::prelude::*;
use vstd::slice::slice_subrange;

verus! {

/// What reading a file gave: its text, or the reason why there is none.
#[derive(Clone, Debug, PartialEq, Eq)]
pub enum FileContent {
    Text(String),
    Unreadable(String),
}

/// A file to search: its path and what reading it gave.
#[derive(Clone, Debug, PartialEq, Eq)]
pub struct SourceFile {
    pub path: String,
    pub content: FileContent,
}

/// The content of a file as text.
pub enum ContentView {
    Text(Seq<char>),
    Unreadable(Seq<char>),
}

/// A file as texts.
pub struct SourceFileView {
    pub path: Seq<char>,
    pub content: ContentView,
}

impl View for FileContent {
    type V = ContentView;

    open spec fn view(&self) -> ContentView {
        match self {
            FileContent::Text(t) => ContentView::Text(t@),
            FileContent::Unreadable(r) => ContentView::Unreadable(r@),
        }
    }
}

impl View for SourceFile {
    type V = SourceFileView;

    open spec fn view(&self) -> SourceFileView {
        SourceFileView { path: self.path@, content: self.content@ }
    }
}

impl DeepView for SourceFile {
    type V = SourceFileView;

    open spec fn deep_view(&self) -> SourceFileView {
        self@
    }
}

/// Whether `c` separates the components of a path.
pub open spec fn is_separator(c: char) -> bool {
    c == '/' || c == '\\'
}

/// Length of the last component of a path: its longest suffix without a
/// separator.
pub open spec fn name_length(path: Seq<char>) -> nat
    decreases path.len(),
{
    if path.len() == 0 || is_separator(path.last()) {
        0
    } else {
        1 + name_length(path.drop_last())
    }
}

/// The file name of a path: its last component.
pub open spec fn file_name(path: Seq<char>) -> Seq<char> {
    path.subrange(path.len() - name_length(path), path.len() as int)
}

/// Length of what follows the last `.` of `name`, or the length of `name`
/// where it holds no `.`.
pub open spec fn suffix_length(name: Seq<char>) -> nat
    decreases name.len(),
{
    if name.len() == 0 || name.last() == '.' {
        0
    } else {
        1 + suffix_length(name.drop_last())
    }
}

/// The extension of a file name: what follows its last `.`. A name without
/// `.`, and a name whose only `.` is its first character, has none.
pub open spec fn name_extension(name: Seq<char>) -> Option<Seq<char>> {
    let k = suffix_length(name);
    if k + 1 < name.len() {
        Some(name.subrange(name.len() - k, name.len() as int))
    } else {
        None
    }
}

/// The extension of the file that a path names.
pub open spec fn extension(path: Seq<char>) -> Option<Seq<char>> {
    name_extension(file_name(path))
}

/// The formats that are searched for in a file with the given extension, in
/// the order of the search. Extensions are compared as they are written. A
/// file without extension, or with another one, is not searched.
pub open spec fn formats_for(ext: Option<Seq<char>>) -> Seq<Format> {
    match ext {
        Some(e) => if e == "config"@ || e == "aspx"@ {
            seq![Format::AttributeBlock, Format::ParenthesizedLiteral]
        } else if e == "asp"@ {
            seq![Format::QuotedLiteral]
        } else if e == "json"@ {
            seq![Format::JsonBlock]
        } else {
            Seq::empty()
        },
        None => Seq::empty(),
    }
}

/// Whether the file that a path names is one that the pipeline searches.
pub open spec fn is_allowed(path: Seq<char>) -> bool {
    formats_for(extension(path)).len() > 0
}

/// The error for a file that could not be read.
pub open spec fn unreadable_error(path: Seq<char>, reason: Seq<char>) -> ErrorView {
    ErrorView { path, message: "Could not read file ("@ + reason + ")"@ }
}

/// The error for a format whose pattern the pattern engine does not accept.
pub open spec fn pattern_error(path: Seq<char>, format: Format, lenient: bool) -> ErrorView {
    ErrorView { path, message: "pattern rejected: "@ + pattern(format, lenient) }
}

/// The findings of one search of a text: those of the candidates found or,
/// where the pattern was not accepted, one error.
pub open spec fn search_findings(
    path: Seq<char>,
    format: Format,
    lenient: bool,
    found: Option<Seq<CandidateView>>,
) -> Findings {
    match found {
        Some(candidates) => candidates_findings(path, candidates),
        None => Findings {
            connections: Seq::empty(),
            errors: seq![pattern_error(path, format, lenient)],
        },
    }
}

/// The findings of a text searched for each of `formats` in turn.
pub open spec fn text_findings(
    path: Seq<char>,
    text: Seq<char>,
    formats: Seq<Format>,
    lenient: bool,
) -> Findings
    decreases formats.len(),
{
    if formats.len() == 0 {
        no_findings()
    } else {
        joined(
            text_findings(path, text, formats.drop_last(), lenient),
            search_findings(
                path,
                formats.last(),
                lenient,
                found_candidates(
                    formats.last(),
                    regex_matches(pattern(formats.last(), lenient), text),
                ),
            ),
        )
    }
}

/// The findings of one file. A file that is not searched gives nothing; a
/// file that could not be read gives one error and nothing else.
pub open spec fn file_findings(file: SourceFileView, lenient: bool) -> Findings {
    let formats = formats_for(extension(file.path));
    if formats.len() == 0 {
        no_findings()
    } else {
        match file.content {
            ContentView::Unreadable(reason) => Findings {
                connections: Seq::empty(),
                errors: seq![unreadable_error(file.path, reason)],
            },
            ContentView::Text(text) => text_findings(file.path, text, formats, lenient),
        }
    }
}

/// The findings of a list of files, file after file.
pub open spec fn files_findings(files: Seq<SourceFileView>, lenient: bool) -> Findings
    decreases files.len(),
{
    if files.len() == 0 {
        no_findings()
    } else {
        joined(files_findings(files.drop_last(), lenient), file_findings(files.last(), lenient))
    }
}

/// Executable form of [`extension`] on characters.
pub fn extension_of(path: &[char]) -> (r: Option<&[char]>)
    ensures
        match r {
            Some(e) => extension(path@) == Some(e@),
            None => extension(path@) is None,
        },
{
    let n = path.len();
    let mut start: usize = n;
    assert(path@.subrange(0, n as int) =~= path@);
    while start > 0 && path[start - 1] != '/' && path[start - 1] != '\\'
        invariant
            n == path@.len(),
            start <= n,
            name_length(path@) == (n - start) + name_length(path@.subrange(0, start as int)),
        decreases start,
    {
        assert(path@.subrange(0, start as int).drop_last() =~= path@.subrange(0, start - 1));
        start -= 1;
    }
    let name = slice_subrange(path, start, n);
    let m = name.len();
    let mut dot: usize = m;
    assert(name@.subrange(0, m as int) =~= name@);
    while dot > 0 && name[dot - 1] != '.'
        invariant
            m == name@.len(),
            dot <= m,
            suffix_length(name@) == (m - dot) + suffix_length(name@.subrange(0, dot as int)),
        decreases dot,
    {
        assert(name@.subrange(0, dot as int).drop_last() =~= name@.subrange(0, dot - 1));
        dot -= 1;
    }
    if dot >= 2 {
        Some(slice_subrange(name, dot, m))
    } else {
        None
    }
}

/// Executable form of [`formats_for`].
pub fn formats_of(ext: Option<&[char]>) -> (r: Vec<Format>)
    ensures
        r@ == formats_for(
            match ext {
                Some(e) => Some(e@),
                None => None,
            },
        ),
{
    let mut formats: Vec<Format> = Vec::new();
    match ext {
        Some(e) => {
            if same_text(e, chars_of("config").as_slice()) || same_text(
                e,
                chars_of("aspx").as_slice(),
            ) {
                formats.push(Format::AttributeBlock);
                formats.push(Format::ParenthesizedLiteral);
            } else if same_text(e, chars_of("asp").as_slice()) {
                formats.push(Format::QuotedLiteral);
            } else if same_text(e, chars_of("json").as_slice()) {
                formats.push(Format::JsonBlock);
            }
        },
        None => {},
    }
    assert(formats@ =~= formats_for(
        match ext {
            Some(e) => Some(e@),
            None => None,
        },
    ));
    formats
}

/// Whether the file that `path` names is one that the pipeline searches:
/// its extension is `config`, `aspx`, `asp` or `json`, however deep in
/// directories the file lies.
pub fn has_allowed_extension(path: &str) -> (b: bool)
    ensures
        b == is_allowed(path@),
{
    let cs = chars_of(path);
    formats_of(extension_of(cs.as_slice())).len() > 0
}

/// The findings of one search of the file `path`, given the candidates that
/// the search returned: the findings of the candidates or, for `None`, the
/// error that names the pattern.
pub fn search_results(path: &str, format: Format, lenient: bool, found: Option<Vec<Candidate>>) -> (r:
    (Vec<Connection>, Vec<ExtractionError>))
    ensures
        findings_of(r) == search_findings(path@, format, lenient, found.deep_view()),
{
    match found {
        Some(candidates) => resolve_all(path, &candidates),
        None => {
            let mut message = "pattern rejected: ".to_owned();
            message.append(pattern_of(format, lenient));
            let e = ExtractionError { path: path.to_owned(), message };
            let connections: Vec<Connection> = Vec::new();
            let mut errors: Vec<ExtractionError> = Vec::new();
            errors.push(e);
            assert(connections.deep_view() =~= Seq::<ConnectionView>::empty());
            assert(errors.deep_view() =~= seq![e@]);
            (connections, errors)
        },
    }
}

/// Appends the findings of `more` to those of `all`.
pub fn append_findings(
    all: (Vec<Connection>, Vec<ExtractionError>),
    more: (Vec<Connection>, Vec<ExtractionError>),
) -> (r: (Vec<Connection>, Vec<ExtractionError>))
    ensures
        findings_of(r) == joined(findings_of(all), findings_of(more)),
{
    let (mut connections, mut errors) = all;
    let (mut more_connections, mut more_errors) = more;
    let ghost c0 = connections.deep_view();
    let ghost c1 = more_connections.deep_view();
    let ghost e0 = errors.deep_view();
    let ghost e1 = more_errors.deep_view();
    connections.append(&mut more_connections);
    errors.append(&mut more_errors);
    assert(connections.deep_view() =~= c0 + c1);
    assert(errors.deep_view() =~= e0 + e1);
    (connections, errors)
}

/// The pipeline with its settings.
#[derive(Clone, Copy, Debug, PartialEq, Eq)]
pub struct ExtractionPipeline {
    /// In lenient mode every tag is searched for attributes, not only
    /// `<add ..>`.
    pub lenient: bool,
}

impl ExtractionPipeline {
    /// A pipeline with the given mode.
    pub fn new(lenient: bool) -> (p: ExtractionPipeline)
        ensures
            p.lenient == lenient,
    {
        ExtractionPipeline { lenient }
    }

    /// Searches `text`, the content of the file `path`, for each of
    /// `formats` in turn.
    pub fn search_text(&self, path: &str, text: &str, formats: &Vec<Format>) -> (r: (
        Vec<Connection>,
        Vec<ExtractionError>,
    ))
        ensures
            findings_of(r) == text_findings(path@, text@, formats@, self.lenient),
    {
        let mut all: (Vec<Connection>, Vec<ExtractionError>) = (Vec::new(), Vec::new());
        let mut i: usize = 0;
        assert(all.0.deep_view() =~= Seq::<ConnectionView>::empty());
        assert(all.1.deep_view() =~= Seq::<ErrorView>::empty());
        assert(formats@.take(0) =~= Seq::<Format>::empty());
        while i < formats.len()
            invariant
                i <= formats.len(),
                findings_of(all) == text_findings(
                    path@,
                    text@,
                    formats@.take(i as int),
                    self.lenient,
                ),
            decreases formats.len() - i,
        {
            let ghost upto = formats@.take(i + 1);
            assert(upto.drop_last() =~= formats@.take(i as int));
            assert(upto.last() == formats@[i as int]);
            let format = formats[i];
            let found = extract_candidates(text, format, self.lenient);
            let more = search_results(path, format, self.lenient, found);
            all = append_findings(all, more);
            i += 1;
        }
        assert(formats@.take(formats.len() as int) =~= formats@);
        all
    }

    /// The connections and the errors of one file.
    pub fn process_file(&self, file: &SourceFile) -> (r: (Vec<Connection>, Vec<ExtractionError>))
        ensures
            findings_of(r) == file_findings(file@, self.lenient),
    {
        let path_chars = chars_of(file.path.as_str());
        let formats = formats_of(extension_of(path_chars.as_slice()));
        if formats.len() == 0 {
            let connections: Vec<Connection> = Vec::new();
            let errors: Vec<ExtractionError> = Vec::new();
            assert(connections.deep_view() =~= Seq::<ConnectionView>::empty());
            assert(errors.deep_view() =~= Seq::<ErrorView>::empty());
            return (connections, errors);
        }
        match &file.content {
            FileContent::Unreadable(reason) => {
                let mut message = "Could not read file (".to_owned();
                message.append(reason.as_str());
                message.append(")");
                let e = ExtractionError { path: file.path.clone(), message };
                let connections: Vec<Connection> = Vec::new();
                let mut errors: Vec<ExtractionError> = Vec::new();
                errors.push(e);
                assert(connections.deep_view() =~= Seq::<ConnectionView>::empty());
                assert(errors.deep_view() =~= seq![e@]);
                (connections, errors)
            },
            FileContent::Text(text) => self.search_text(
                file.path.as_str(),
                text.as_str(),
                &formats,
            ),
        }
    }

    /// The connections and the errors of `files`, in the order of the files
    /// and, within a file, in the order of discovery. No file and no
    /// candidate ends the run.
    pub fn run(&self, files: &Vec<SourceFile>) -> (r: (Vec<Connection>, Vec<ExtractionError>))
        ensures
            findings_of(r) == files_findings(files.deep_view(), self.lenient),
    {
        let mut all: (Vec<Connection>, Vec<ExtractionError>) = (Vec::new(), Vec::new());
        let mut i: usize = 0;
        assert(all.0.deep_view() =~= Seq::<ConnectionView>::empty());
        assert(all.1.deep_view() =~= Seq::<ErrorView>::empty());
        assert(files.deep_view().take(0) =~= Seq::<SourceFileView>::empty());
        while i < files.len()
            invariant
                i <= files.len(),
                findings_of(all) == files_findings(
                    files.deep_view().take(i as int),
                    self.lenient,
                ),
            decreases files.len() - i,
        {
            let ghost upto = files.deep_view().take(i + 1);
            assert(upto.drop_last() =~= files.deep_view().take(i as int));
            assert(upto.last() == files[i as int]@);
            let more = self.process_file(&files[i]);
            all = append_findings(all, more);
            i += 1;
        }
        assert(files.deep_view().take(files.len() as int) =~= files.deep_view());
        all
    }
}

/// The connections and the errors of `files`, searched in strict mode.
pub fn extract_connections_from_files(files: Vec<SourceFile>) -> (r: (
    Vec<Connection>,
    Vec<ExtractionError>,
))
    ensures
        findings_of(r) == files_findings(files.deep_view(), false),
{
    ExtractionPipeline::new(false).run(&files)
}

} // verus!
