//! Connection resolution: from one candidate to a connection, an error, or
//! nothing.
//!
//! The validity policy is strict on presence and lenient on emptiness. A
//! candidate gives a connection only if a key of each of the three roles was
//! found in it; a key with an empty value counts as found. A candidate that
//! mentions neither `connection` nor `provider` is passed over in silence. Any
//! other candidate gives an error that names what is missing.

use crate::extractor::{
    block_lines, blocks_lines, candidates_from_matches, nonblank, tagged, Candidate,
    CandidateView, Format,
};
use crate::key::{
    is_connection_string_key, key_role, name_of_role, names_connection_string, normalize_key,
    role_name, KeyRole,
};
use crate::text::{
    chars_of, find_char, find_from, mentions, mentions_word, skip_spaces, split, trim, trim_end,
    trim_end_slice, trim_slice, trim_start,
};
use crate::tokenizer::{
    attributes, fields, scan_attributes, tokenize, tokenize_chars, Field, FieldView,
};
use vstd::prelude::*;
use vstd::slice::slice_subrange;

verus! {

/// A database connection found in a file.
#[derive(Clone, Debug, PartialEq, Eq)]
pub struct Connection {
    pub path: String,
    pub data_source: String,
    pub user_id: String,
    pub provider: String,
}

/// Why a candidate of a file, or the file itself, gave no connection.
#[derive(Clone, Debug, PartialEq, Eq)]
pub struct ExtractionError {
    pub path: String,
    pub message: String,
}

/// A connection as texts.
pub struct ConnectionView {
    pub path: Seq<char>,
    pub data_source: Seq<char>,
    pub user_id: Seq<char>,
    pub provider: Seq<char>,
}

/// An error as texts.
pub struct ErrorView {
    pub path: Seq<char>,
    pub message: Seq<char>,
}

impl View for Connection {
    type V = ConnectionView;

    open spec fn view(&self) -> ConnectionView {
        ConnectionView {
            path: self.path@,
            data_source: self.data_source@,
            user_id: self.user_id@,
            provider: self.provider@,
        }
    }
}

impl DeepView for Connection {
    type V = ConnectionView;

    open spec fn deep_view(&self) -> ConnectionView {
        self@
    }
}

impl View for ExtractionError {
    type V = ErrorView;

    open spec fn view(&self) -> ErrorView {
        ErrorView { path: self.path@, message: self.message@ }
    }
}

impl DeepView for ExtractionError {
    type V = ErrorView;

    open spec fn deep_view(&self) -> ErrorView {
        self@
    }
}

/// What one candidate resolves to, as texts.
pub type ResolutionView = Result<Option<ConnectionView>, ErrorView>;

/// The view of a resolution.
pub open spec fn resolution_view(r: Result<Option<Connection>, ExtractionError>) -> ResolutionView {
    match r {
        Ok(Some(c)) => Ok(Some(c@)),
        Ok(None) => Ok(None),
        Err(e) => Err(e@),
    }
}

/// Whether a candidate is worth resolving: it mentions `connection` or
/// `provider`, in any case of the letters.
pub open spec fn is_relevant(candidate: Seq<char>) -> bool {
    mentions(candidate, "connection"@) || mentions(candidate, "provider"@)
}

/// The value of the last field whose key plays `role`, if there is one.
pub open spec fn located(fields: Seq<FieldView>, role: KeyRole) -> Option<Seq<char>>
    decreases fields.len(),
{
    if fields.len() == 0 {
        None
    } else if key_role(fields.last().0) == role {
        Some(fields.last().1)
    } else {
        located(fields.drop_last(), role)
    }
}

/// `list` with `name` added where `missing` holds; names are separated by a
/// comma and a space.
pub open spec fn listed(list: Seq<char>, name: Seq<char>, missing: bool) -> Seq<char> {
    if !missing {
        list
    } else if list.len() == 0 {
        name
    } else {
        list + ", "@ + name
    }
}

/// The names of the roles that `fields` does not supply, in the order data
/// source, user id, provider.
pub open spec fn missing_roles(fields: Seq<FieldView>) -> Seq<char> {
    listed(
        listed(
            listed(
                Seq::empty(),
                role_name(KeyRole::DataSource),
                located(fields, KeyRole::DataSource) is None,
            ),
            role_name(KeyRole::UserId),
            located(fields, KeyRole::UserId) is None,
        ),
        role_name(KeyRole::Provider),
        located(fields, KeyRole::Provider) is None,
    )
}

/// The error for a candidate of `path` whose fields lack a role.
pub open spec fn missing_field_error(path: Seq<char>, fields: Seq<FieldView>) -> ErrorView {
    ErrorView { path, message: "missing required field: "@ + missing_roles(fields) }
}

/// The error for a tag of `path` whose attribute list cannot be read.
pub open spec fn malformed_error(path: Seq<char>) -> ErrorView {
    ErrorView { path, message: "malformed candidate: attribute value is not a quoted string"@ }
}

/// The validity policy on the fields of a relevant candidate: a connection
/// where all three roles were found, else the error that names the missing
/// ones.
pub open spec fn resolution(path: Seq<char>, fields: Seq<FieldView>) -> ResolutionView {
    match (
        located(fields, KeyRole::DataSource),
        located(fields, KeyRole::UserId),
        located(fields, KeyRole::Provider),
    ) {
        (Some(data_source), Some(user_id), Some(provider)) => Ok(
            Some(ConnectionView { path, data_source, user_id, provider }),
        ),
        _ => Err(missing_field_error(path, fields)),
    }
}

/// The text of a literal: the candidate without a leading `("` or `"` and
/// without a trailing `")` or `"`.
pub open spec fn literal_body(candidate: Seq<char>) -> Seq<char> {
    let a = if candidate.len() >= 2 && candidate[0] == '(' && candidate[1] == '"' {
        candidate.subrange(2, candidate.len() as int)
    } else if candidate.len() >= 1 && candidate[0] == '"' {
        candidate.subrange(1, candidate.len() as int)
    } else {
        candidate
    };
    if a.len() >= 2 && a[a.len() - 2] == '"' && a[a.len() - 1] == ')' {
        a.subrange(0, a.len() - 2)
    } else if a.len() >= 1 && a[a.len() - 1] == '"' {
        a.subrange(0, a.len() - 1)
    } else {
        a
    }
}

/// What a literal candidate resolves to.
pub open spec fn literal_resolution(path: Seq<char>, candidate: Seq<char>) -> ResolutionView {
    if is_relevant(candidate) {
        resolution(path, fields(literal_body(candidate)))
    } else {
        Ok(None)
    }
}

/// The fields inside the connection strings of a tag: for each attribute
/// that carries a connection string, in order, the fields of its value.
pub open spec fn inner_fields(outer: Seq<FieldView>) -> Seq<FieldView>
    decreases outer.len(),
{
    if outer.len() == 0 {
        Seq::empty()
    } else if is_connection_string_key(outer.last().0) {
        inner_fields(outer.drop_last()) + fields(outer.last().1)
    } else {
        inner_fields(outer.drop_last())
    }
}

/// All fields of a tag: its attributes, then the fields inside its
/// connection strings. The later a field stands, the higher its precedence,
/// so a provider inside a connection string wins over a provider attribute.
pub open spec fn tag_fields(outer: Seq<FieldView>) -> Seq<FieldView> {
    outer + inner_fields(outer)
}

/// What a tag candidate resolves to.
pub open spec fn tag_resolution(path: Seq<char>, candidate: Seq<char>) -> ResolutionView {
    if is_relevant(candidate) {
        match attributes(candidate) {
            Some(outer) => resolution(path, tag_fields(outer)),
            None => Err(malformed_error(path)),
        }
    } else {
        Ok(None)
    }
}

/// The value of a member line `"name": value`: what follows the colon. A
/// line of another shape is its own value.
pub open spec fn member_value(line: Seq<char>) -> Seq<char> {
    if line.len() > 0 && line.first() == '"' {
        let close = 1 + find_char(line.drop_first(), '"');
        if close < line.len() {
            let after = trim_start(line.subrange(close + 1, line.len() as int));
            if after.len() > 0 && after.first() == ':' {
                after.drop_first()
            } else {
                line
            }
        } else {
            line
        }
    } else {
        line
    }
}

/// The connection-string body of one line of a settings block: the member's
/// value, without a trailing comma and without its quotes.
pub open spec fn json_line_body(line: Seq<char>) -> Seq<char> {
    let value = trim(member_value(trim(line)));
    let bare = if value.len() > 0 && value.last() == ',' {
        trim_end(value.drop_last())
    } else {
        value
    };
    literal_body(bare)
}

/// What one line of a settings block resolves to.
pub open spec fn json_line_resolution(path: Seq<char>, line: Seq<char>) -> ResolutionView {
    if is_relevant(line) {
        resolution(path, fields(json_line_body(line)))
    } else {
        Ok(None)
    }
}

/// Executable form of [`is_relevant`].
pub fn is_relevant_chars(candidate: &[char]) -> (b: bool)
    ensures
        b == is_relevant(candidate@),
{
    mentions_word(candidate, chars_of("connection").as_slice()) || mentions_word(
        candidate,
        chars_of("provider").as_slice(),
    )
}

/// The value of the last of `fields` whose key plays `role`.
pub fn locate(fields: &Vec<Field>, role: KeyRole) -> (r: Option<String>)
    ensures
        r.deep_view() == located(fields.deep_view(), role),
{
    let mut found: Option<String> = None;
    let mut i: usize = 0;
    assert(fields.deep_view().take(0) =~= Seq::<FieldView>::empty());
    while i < fields.len()
        invariant
            i <= fields.len(),
            found.deep_view() == located(fields.deep_view().take(i as int), role),
        decreases fields.len() - i,
    {
        let ghost upto = fields.deep_view().take(i + 1);
        assert(upto.drop_last() =~= fields.deep_view().take(i as int));
        assert(upto.last() == fields[i as int]@);
        if normalize_key(fields[i].key.as_str()) == role {
            found = Some(fields[i].value.clone());
        }
        i += 1;
    }
    assert(fields.deep_view().take(fields.len() as int) =~= fields.deep_view());
    found
}

/// Executable form of [`listed`].
fn list_missing(list: String, role: KeyRole, missing: bool) -> (r: String)
    ensures
        r@ == listed(list@, role_name(role), missing),
{
    if !missing {
        list
    } else if list.as_str().is_empty() {
        name_of_role(role).to_owned()
    } else {
        let mut r = list;
        r.append(", ");
        r.append(name_of_role(role));
        r
    }
}

/// Applies the validity policy to the fields of a relevant candidate of the
/// file `path`: the connection, where a key of each role was found, and else
/// the error that names the roles without a key.
pub fn resolve(path: &str, fields: &Vec<Field>) -> (r: Result<Option<Connection>, ExtractionError>)
    ensures
        resolution_view(r) == resolution(path@, fields.deep_view()),
{
    let data_source = locate(fields, KeyRole::DataSource);
    let user_id = locate(fields, KeyRole::UserId);
    let provider = locate(fields, KeyRole::Provider);
    match (data_source, user_id, provider) {
        (Some(data_source), Some(user_id), Some(provider)) => Ok(
            Some(Connection { path: path.to_owned(), data_source, user_id, provider }),
        ),
        (data_source, user_id, provider) => {
            let list = list_missing(String::new(), KeyRole::DataSource, data_source.is_none());
            let list = list_missing(list, KeyRole::UserId, user_id.is_none());
            let list = list_missing(list, KeyRole::Provider, provider.is_none());
            let mut message = "missing required field: ".to_owned();
            message.append(list.as_str());
            Err(ExtractionError { path: path.to_owned(), message })
        },
    }
}

/// Executable form of [`literal_body`].
pub fn literal_body_slice(candidate: &[char]) -> (r: &[char])
    ensures
        r@ == literal_body(candidate@),
{
    let n = candidate.len();
    let i: usize = if n >= 2 && candidate[0] == '(' && candidate[1] == '"' {
        2
    } else if n >= 1 && candidate[0] == '"' {
        1
    } else {
        0
    };
    let a = slice_subrange(candidate, i, n);
    assert(candidate@.subrange(0, n as int) =~= candidate@);
    let m = a.len();
    let j: usize = if m >= 2 && a[m - 2] == '"' && a[m - 1] == ')' {
        m - 2
    } else if m >= 1 && a[m - 1] == '"' {
        m - 1
    } else {
        m
    };
    assert(a@.subrange(0, m as int) =~= a@);
    slice_subrange(a, 0, j)
}

/// Resolves a literal of the file `path`: a connection string between `("`
/// and `")`, between double quotes, or bare.
pub fn extract_from_asp_classic(element: &str, path: &str) -> (r: Result<
    Option<Connection>,
    ExtractionError,
>)
    ensures
        resolution_view(r) == literal_resolution(path@, element@),
{
    let candidate = chars_of(element);
    if !is_relevant_chars(candidate.as_slice()) {
        return Ok(None);
    }
    let found = tokenize_chars(literal_body_slice(candidate.as_slice()));
    resolve(path, &found)
}

/// The attributes of a tag followed by the fields inside its connection
/// strings.
pub fn with_inner_fields(outer: Vec<Field>) -> (r: Vec<Field>)
    ensures
        r.deep_view() == tag_fields(outer.deep_view()),
{
    let mut inner: Vec<Field> = Vec::new();
    let mut i: usize = 0;
    assert(outer.deep_view().take(0) =~= Seq::<FieldView>::empty());
    assert(inner.deep_view() =~= Seq::<FieldView>::empty());
    while i < outer.len()
        invariant
            i <= outer.len(),
            inner.deep_view() == inner_fields(outer.deep_view().take(i as int)),
        decreases outer.len() - i,
    {
        let ghost upto = outer.deep_view().take(i + 1);
        let ghost before = inner.deep_view();
        assert(upto.drop_last() =~= outer.deep_view().take(i as int));
        assert(upto.last() == outer[i as int]@);
        if names_connection_string(chars_of(outer[i].key.as_str()).as_slice()) {
            let mut more = tokenize(outer[i].value.as_str());
            let ghost added = more.deep_view();
            inner.append(&mut more);
            assert(inner.deep_view() =~= before + added);
        }
        i += 1;
    }
    assert(outer.deep_view().take(outer.len() as int) =~= outer.deep_view());
    let mut all = outer;
    let ghost first = all.deep_view();
    let ghost second = inner.deep_view();
    all.append(&mut inner);
    assert(all.deep_view() =~= first + second);
    all
}

/// Resolves a tag of the file `path`. The roles are looked up among the
/// attributes of the tag and among the fields of its connection string; the
/// connection string has precedence.
pub fn extract_from_asp_net(element: &str, path: &str) -> (r: Result<
    Option<Connection>,
    ExtractionError,
>)
    ensures
        resolution_view(r) == tag_resolution(path@, element@),
{
    let candidate = chars_of(element);
    if !is_relevant_chars(candidate.as_slice()) {
        return Ok(None);
    }
    match scan_attributes(candidate.as_slice()) {
        Some(outer) => {
            let all = with_inner_fields(outer);
            resolve(path, &all)
        },
        None => Err(
            ExtractionError {
                path: path.to_owned(),
                message: "malformed candidate: attribute value is not a quoted string".to_owned(),
            },
        ),
    }
}

/// Executable form of [`member_value`].
pub fn member_value_slice(line: &[char]) -> (r: &[char])
    ensures
        r@ == member_value(line@),
{
    let n = line.len();
    if n == 0 || line[0] != '"' {
        return line;
    }
    assert(line@.drop_first() =~= line@.subrange(1, n as int));
    let close = find_from(line, 1, '"');
    if close >= n {
        return line;
    }
    let colon = skip_spaces(line, close + 1);
    if colon < n && line[colon] == ':' {
        assert(line@.subrange(colon as int, n as int).drop_first() =~= line@.subrange(
            colon + 1,
            n as int,
        ));
        slice_subrange(line, colon + 1, n)
    } else {
        line
    }
}

/// Executable form of [`json_line_body`].
pub fn json_line_body_slice(line: &[char]) -> (r: &[char])
    ensures
        r@ == json_line_body(line@),
{
    let value = trim_slice(member_value_slice(trim_slice(line)));
    let n = value.len();
    if n > 0 && value[n - 1] == ',' {
        assert(value@.drop_last() =~= value@.subrange(0, n - 1));
        literal_body_slice(trim_end_slice(slice_subrange(value, 0, n - 1)))
    } else {
        literal_body_slice(value)
    }
}

/// Resolves one line of a settings block of the file `path`.
pub fn extract_from_json_line(line: &str, path: &str) -> (r: Result<
    Option<Connection>,
    ExtractionError,
>)
    ensures
        resolution_view(r) == json_line_resolution(path@, line@),
{
    let candidate = chars_of(line);
    if !is_relevant_chars(candidate.as_slice()) {
        return Ok(None);
    }
    let found = tokenize_chars(json_line_body_slice(candidate.as_slice()));
    resolve(path, &found)
}

/// The fields of a candidate, read in the way of the format that it was
/// found in; `None` for a tag whose attributes cannot be read.
pub open spec fn candidate_fields(candidate: CandidateView) -> Option<Seq<FieldView>> {
    match candidate.format {
        Format::AttributeBlock => match attributes(candidate.text) {
            Some(outer) => Some(tag_fields(outer)),
            None => None,
        },
        Format::ParenthesizedLiteral => Some(fields(literal_body(candidate.text))),
        Format::QuotedLiteral => Some(fields(literal_body(candidate.text))),
        Format::JsonBlock => Some(fields(json_line_body(candidate.text))),
    }
}

/// What a candidate resolves to: the path of resolution goes by the format
/// that the candidate was found in.
pub open spec fn candidate_resolution(path: Seq<char>, candidate: CandidateView) -> ResolutionView {
    match candidate.format {
        Format::AttributeBlock => tag_resolution(path, candidate.text),
        Format::ParenthesizedLiteral => literal_resolution(path, candidate.text),
        Format::QuotedLiteral => literal_resolution(path, candidate.text),
        Format::JsonBlock => json_line_resolution(path, candidate.text),
    }
}

/// What was found: connections and errors, each in order of discovery.
pub struct Findings {
    pub connections: Seq<ConnectionView>,
    pub errors: Seq<ErrorView>,
}

/// Nothing found.
pub open spec fn no_findings() -> Findings {
    Findings { connections: Seq::empty(), errors: Seq::empty() }
}

/// The findings of `first` followed by those of `second`.
pub open spec fn joined(first: Findings, second: Findings) -> Findings {
    Findings {
        connections: first.connections + second.connections,
        errors: first.errors + second.errors,
    }
}

/// `found` with one more resolution: a connection and an error are appended
/// to their list, and a candidate that was passed over leaves no trace.
pub open spec fn with_resolution(found: Findings, r: ResolutionView) -> Findings {
    match r {
        Ok(Some(c)) => Findings { connections: found.connections.push(c), errors: found.errors },
        Ok(None) => found,
        Err(e) => Findings { connections: found.connections, errors: found.errors.push(e) },
    }
}

/// The findings of the candidates of one file, each resolved on its own.
pub open spec fn candidates_findings(path: Seq<char>, candidates: Seq<CandidateView>) -> Findings
    decreases candidates.len(),
{
    if candidates.len() == 0 {
        no_findings()
    } else {
        with_resolution(
            candidates_findings(path, candidates.drop_last()),
            candidate_resolution(path, candidates.last()),
        )
    }
}

/// The findings that a pair of lists stands for.
pub open spec fn findings_of(lists: (Vec<Connection>, Vec<ExtractionError>)) -> Findings {
    Findings { connections: lists.0.deep_view(), errors: lists.1.deep_view() }
}

/// Resolves one candidate of the file `path`: `Ok(Some(..))` with the
/// connection, `Ok(None)` where the candidate is not relevant, `Err(..)`
/// where it is relevant and cannot be resolved.
pub fn resolve_candidate(candidate: &Candidate, path: &str) -> (r: Result<
    Option<Connection>,
    ExtractionError,
>)
    ensures
        resolution_view(r) == candidate_resolution(path@, candidate@),
{
    match candidate.format {
        Format::AttributeBlock => extract_from_asp_net(candidate.text.as_str(), path),
        Format::ParenthesizedLiteral => extract_from_asp_classic(candidate.text.as_str(), path),
        Format::QuotedLiteral => extract_from_asp_classic(candidate.text.as_str(), path),
        Format::JsonBlock => extract_from_json_line(candidate.text.as_str(), path),
    }
}

/// Resolves the candidates of the file `path` one by one and collects the
/// connections and the errors, each in the order of the candidates.
pub fn resolve_all(path: &str, candidates: &Vec<Candidate>) -> (r: (
    Vec<Connection>,
    Vec<ExtractionError>,
))
    ensures
        findings_of(r) == candidates_findings(path@, candidates.deep_view()),
{
    let mut connections: Vec<Connection> = Vec::new();
    let mut errors: Vec<ExtractionError> = Vec::new();
    let mut i: usize = 0;
    assert(candidates.deep_view().take(0) =~= Seq::<CandidateView>::empty());
    assert(connections.deep_view() =~= Seq::<ConnectionView>::empty());
    assert(errors.deep_view() =~= Seq::<ErrorView>::empty());
    while i < candidates.len()
        invariant
            i <= candidates.len(),
            findings_of((connections, errors)) == candidates_findings(
                path@,
                candidates.deep_view().take(i as int),
            ),
        decreases candidates.len() - i,
    {
        let ghost upto = candidates.deep_view().take(i + 1);
        let ghost before_c = connections.deep_view();
        let ghost before_e = errors.deep_view();
        assert(upto.drop_last() =~= candidates.deep_view().take(i as int));
        assert(upto.last() == candidates[i as int]@);
        match resolve_candidate(&candidates[i], path) {
            Ok(Some(c)) => {
                connections.push(c);
                assert(connections.deep_view() =~= before_c.push(c@));
            },
            Ok(None) => {},
            Err(e) => {
                errors.push(e);
                assert(errors.deep_view() =~= before_e.push(e@));
            },
        }
        i += 1;
    }
    assert(candidates.deep_view().take(candidates.len() as int) =~= candidates.deep_view());
    (connections, errors)
}

/// Resolves the lines of one settings block of the file `path`: every
/// non-blank line of the block is a candidate of its own, so one block may
/// give several connections and several errors.
pub fn extract_from_json(element: &str, path: &str) -> (r: (Vec<Connection>, Vec<ExtractionError>))
    ensures
        findings_of(r) == candidates_findings(
            path@,
            tagged(nonblank(split(element@, '\n')), Format::JsonBlock),
        ),
{
    let mut blocks: Vec<String> = Vec::new();
    blocks.push(element.to_owned());
    proof {
        let all = blocks.deep_view();
        assert(all =~= seq![element@]);
        assert(all.last() == element@);
        assert(all.drop_last() =~= Seq::<Seq<char>>::empty());
        assert(blocks_lines(all.drop_last()) =~= Seq::<Seq<char>>::empty());
        assert(Seq::<Seq<char>>::empty() + block_lines(element@) =~= block_lines(element@));
        assert(blocks_lines(all) == block_lines(element@));
    }
    let candidates = candidates_from_matches(Format::JsonBlock, &blocks);
    resolve_all(path, &candidates)
}

} // verus!
