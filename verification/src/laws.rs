//! What holds of the library as a whole, stated over the models that the
//! contracts of its functions use.

use crate::key::{key_role, role_name, role_of_name, KeyRole};
use crate::extractor::{
    block_lines, found_candidates, lemma_lines_join, lemma_lines_of_one_line, nonblank, pattern,
    regex_matches, tagged, CandidateView, Format,
};
use crate::pipeline::{
    extension, file_findings, file_name, files_findings, formats_for, is_allowed, is_separator,
    name_extension, name_length, search_findings, text_findings, ContentView, SourceFileView,
};
use crate::resolver::{
    candidate_fields, candidate_resolution, candidates_findings, inner_fields, is_relevant,
    joined, literal_body, literal_resolution, located, malformed_error, missing_field_error,
    json_line_resolution, no_findings, resolution, tag_fields, with_resolution, ConnectionView,
    ErrorView, Findings,
};
use crate::table::{connection_rows, error_rows};
use crate::text::{
    clean, find_char, fold, folded_at, is_space, lemma_find_char, lemma_find_char_is,
    lemma_mentions_inside, lemma_trim_end, lemma_trim_idempotent, lemma_trim_start, lower,
    split, trim, trim_start,
};
use crate::tokenizer::{
    fields, lemma_fields_join, lemma_fields_of_segment, lemma_fields_unfold,
    lemma_segment_field, FieldView,
};
use vstd::prelude::*;

verus! {

/// Whether `c` may stand in the name of a role: a small letter or a space.
pub open spec fn is_name_char(c: char) -> bool {
    'a' <= c <= 'z' || c == ' '
}

/// The names of the roles are made of small letters and spaces.
pub proof fn lemma_role_names(name: Seq<char>)
    requires
        role_of_name(name) != KeyRole::Unrecognized,
    ensures
        name.len() >= 7,
        forall|j: int| 0 <= j < name.len() ==> is_name_char(#[trigger] name[j]),
{
    reveal_strlit("data source");
    reveal_strlit("user id");
    reveal_strlit("provider");
    reveal_strlit("providername");
}

/// Whether `c` delimits something in a declaration.
pub open spec fn is_delimiter(c: char) -> bool {
    c == '=' || c == ';' || c == '"' || c == '(' || c == ')'
}

/// A key that plays a role holds white space and letters only: no
/// delimiter, and at least one character that is no white space.
pub proof fn lemma_key_is_plain(key: Seq<char>)
    requires
        key_role(key) != KeyRole::Unrecognized,
    ensures
        forall|i: int| 0 <= i < key.len() ==> !is_delimiter(#[trigger] key[i]),
        trim(key).len() >= 7,
        trim(key).len() <= trim_start(key).len() <= key.len(),
        trim(key) == key.subrange(
            key.len() - trim_start(key).len(),
            key.len() - trim_start(key).len() + trim(key).len(),
        ),
{
    let a = trim_start(key);
    let t = trim(key);
    let p = key.len() - a.len();
    lemma_trim_start(key);
    lemma_trim_end(a);
    lemma_role_names(fold(t));
    assert(t =~= key.subrange(p, p + t.len()));
    assert forall|i: int| 0 <= i < key.len() implies !is_delimiter(#[trigger] key[i]) by {
        if i < p {
            assert(is_space(key[i]));
        } else if i < p + t.len() {
            assert(key[i] == t[i - p]);
            assert(fold(t)[i - p] == lower(t[i - p]));
            assert(is_name_char(fold(t)[i - p]));
        } else {
            assert(key[i] == a[i - p]);
            assert(is_space(a[i - p]));
        }
    }
}

/// Cleaning a key that plays a role does not change the role.
pub proof fn lemma_clean_key_keeps_role(key: Seq<char>)
    requires
        key_role(key) != KeyRole::Unrecognized,
    ensures
        clean(key) == trim(key),
        key_role(clean(key)) == key_role(key),
{
    let t = trim(key);
    lemma_key_is_plain(key);
    lemma_trim_idempotent(key);
    assert(t.first() == key[key.len() - trim_start(key).len()]);
    assert(t.last() == key[key.len() - trim_start(key).len() + t.len() - 1]);
    assert(!is_delimiter(t.first()));
    assert(!is_delimiter(t.last()));
}

/// Whether a value is plain: it holds neither `;` nor `"`.
pub open spec fn is_plain_value(value: Seq<char>) -> bool {
    forall|i: int| 0 <= i < value.len() ==> value[i] != ';' && value[i] != '"'
}

/// The text `key=value`.
pub open spec fn pair_text(key: Seq<char>, value: Seq<char>) -> Seq<char> {
    key + seq!['='] + value
}

/// The text `k1=v1;k2=v2;k3=v3`.
pub open spec fn three_pairs(
    k1: Seq<char>,
    v1: Seq<char>,
    k2: Seq<char>,
    v2: Seq<char>,
    k3: Seq<char>,
    v3: Seq<char>,
) -> Seq<char> {
    pair_text(k1, v1) + seq![';'] + pair_text(k2, v2) + seq![';'] + pair_text(k3, v3)
}

/// Of three pairs, the value behind the key that plays `role`.
pub open spec fn value_of(
    role: KeyRole,
    k1: Seq<char>,
    v1: Seq<char>,
    k2: Seq<char>,
    v2: Seq<char>,
    v3: Seq<char>,
) -> Seq<char> {
    if key_role(k1) == role {
        v1
    } else if key_role(k2) == role {
        v2
    } else {
        v3
    }
}

/// Cleaning a plain value is trimming it.
pub proof fn lemma_clean_plain_value(value: Seq<char>)
    requires
        is_plain_value(value),
    ensures
        clean(value) == trim(value),
{
    let a = trim_start(value);
    let t = trim(value);
    lemma_trim_start(value);
    lemma_trim_end(a);
    if t.len() > 0 {
        let p = value.len() - a.len();
        assert(t.first() == a[0]);
        assert(a[0] == value[p]);
        assert(t.last() == a[t.len() - 1]);
        assert(a[t.len() - 1] == value[p + t.len() - 1]);
    }
}

/// The pairs of `key=value`, for a key that plays a role and a plain value.
pub proof fn lemma_pair_fields(key: Seq<char>, value: Seq<char>)
    requires
        key_role(key) != KeyRole::Unrecognized,
        is_plain_value(value),
    ensures
        fields(pair_text(key, value)) == seq![(trim(key), trim(value))],
        key_role(trim(key)) == key_role(key),
        forall|i: int|
            0 <= i < pair_text(key, value).len() ==> #[trigger] pair_text(key, value)[i] != ';'
                && pair_text(key, value)[i] != '"',
        pair_text(key, value).len() > 0,
        pair_text(key, value)[0] != '(',
{
    lemma_key_is_plain(key);
    lemma_clean_key_keeps_role(key);
    lemma_clean_plain_value(value);
    lemma_segment_field(key, value);
    let text = pair_text(key, value);
    assert forall|i: int| 0 <= i < text.len() implies #[trigger] text[i] != ';' && text[i]
        != '"' by {
        if i < key.len() {
            assert(text[i] == key[i]);
            assert(!is_delimiter(key[i]));
        } else if i > key.len() {
            assert(text[i] == value[i - key.len() - 1]);
        }
    }
    lemma_fields_of_segment(text);
    assert(text[0] == key[0]);
    assert(!is_delimiter(key[0]));
}

/// A text that holds a key of the provider role mentions `provider`.
pub proof fn lemma_provider_key_is_relevant(before: Seq<char>, key: Seq<char>, after: Seq<char>)
    requires
        key_role(key) == KeyRole::Provider,
    ensures
        is_relevant(before + key + after),
{
    reveal_strlit("provider");
    reveal_strlit("providername");
    reveal_strlit("data source");
    reveal_strlit("user id");
    lemma_key_is_plain(key);
    let whole = before + key + after;
    let t = trim(key);
    let p = key.len() - trim_start(key).len();
    let i = before.len() + p;
    let word = "provider"@;
    assert(fold(t).len() == t.len());
    assert(fold(t) == "provider"@ || fold(t) == "providername"@);
    assert(t.len() >= 8);
    assert(i + 8 <= whole.len());
    let part = whole.subrange(i, i + 8);
    assert forall|j: int| 0 <= j < 8 implies fold(part)[j] == word[j] by {
        assert(part[j] == whole[i + j]);
        assert(whole[i + j] == key[p + j]);
        assert(key[p + j] == t[j]);
        assert(fold(t)[j] == lower(t[j]));
    }
    assert(fold(part) =~= word);
    assert(folded_at(whole, word, i));
}

/// The connection that three pairs whose keys play the three roles stand
/// for: for each role, the value behind the key of that role, trimmed.
pub open spec fn connection_of(
    path: Seq<char>,
    k1: Seq<char>,
    v1: Seq<char>,
    k2: Seq<char>,
    v2: Seq<char>,
    v3: Seq<char>,
) -> ConnectionView {
    ConnectionView {
        path,
        data_source: trim(value_of(KeyRole::DataSource, k1, v1, k2, v2, v3)),
        user_id: trim(value_of(KeyRole::UserId, k1, v1, k2, v2, v3)),
        provider: trim(value_of(KeyRole::Provider, k1, v1, k2, v2, v3)),
    }
}

/// A well-formed fragment resolves to its connection. Take three pairs
/// `key=value`, joined by `;`, whose keys play the three roles in any order,
/// written in any case of the letters and with any white space around them,
/// and whose values hold neither `;` nor `"`. The fragment resolves to the
/// connection that holds, for each role, the value behind the key of that
/// role, trimmed; and so it does between double quotes and between `("` and
/// `")`.
pub proof fn law_well_formed_fragment_resolves(
    path: Seq<char>,
    k1: Seq<char>,
    v1: Seq<char>,
    k2: Seq<char>,
    v2: Seq<char>,
    k3: Seq<char>,
    v3: Seq<char>,
)
    requires
        key_role(k1) != KeyRole::Unrecognized,
        key_role(k2) != KeyRole::Unrecognized,
        key_role(k3) != KeyRole::Unrecognized,
        key_role(k1) != key_role(k2),
        key_role(k1) != key_role(k3),
        key_role(k2) != key_role(k3),
        is_plain_value(v1),
        is_plain_value(v2),
        is_plain_value(v3),
    ensures
        literal_resolution(path, three_pairs(k1, v1, k2, v2, k3, v3)) == Ok::<
            Option<ConnectionView>,
            ErrorView,
        >(Some(connection_of(path, k1, v1, k2, v2, v3))),
        literal_resolution(path, quoted(three_pairs(k1, v1, k2, v2, k3, v3))) == Ok::<
            Option<ConnectionView>,
            ErrorView,
        >(Some(connection_of(path, k1, v1, k2, v2, v3))),
        literal_resolution(path, parenthesized(three_pairs(k1, v1, k2, v2, k3, v3))) == Ok::<
            Option<ConnectionView>,
            ErrorView,
        >(Some(connection_of(path, k1, v1, k2, v2, v3))),
{
    law_wrapping_does_not_matter(path, three_pairs(k1, v1, k2, v2, k3, v3));
    let first = pair_text(k1, v1);
    let second = pair_text(k2, v2);
    let third = pair_text(k3, v3);
    let whole = three_pairs(k1, v1, k2, v2, k3, v3);
    let f1 = (trim(k1), trim(v1));
    let f2 = (trim(k2), trim(v2));
    let f3 = (trim(k3), trim(v3));
    lemma_pair_fields(k1, v1);
    lemma_pair_fields(k2, v2);
    lemma_pair_fields(k3, v3);

    // The fragment is relevant: one of its keys is the provider key.
    assert(is_relevant(whole)) by {
        let s = seq![';'];
        let e = seq!['='];
        if key_role(k1) == KeyRole::Provider {
            lemma_provider_key_is_relevant(Seq::empty(), k1, e + v1 + s + second + s + third);
            assert(Seq::<char>::empty() + k1 + (e + v1 + s + second + s + third) =~= whole);
        } else if key_role(k2) == KeyRole::Provider {
            lemma_provider_key_is_relevant(first + s, k2, e + v2 + s + third);
            assert((first + s) + k2 + (e + v2 + s + third) =~= whole);
        } else {
            lemma_provider_key_is_relevant(first + s + second + s, k3, e + v3);
            assert((first + s + second + s) + k3 + (e + v3) =~= whole);
        }
    }

    // Nothing is stripped from it: it holds no quote.
    assert(literal_body(whole) == whole) by {
        assert(whole[0] == first[0]);
        assert forall|i: int| 0 <= i < whole.len() implies whole[i] != '"' by {
            if i < first.len() {
                assert(whole[i] == first[i]);
            } else if i == first.len() {
            } else if i < first.len() + 1 + second.len() {
                assert(whole[i] == second[i - first.len() - 1]);
            } else if i == first.len() + 1 + second.len() {
            } else {
                assert(whole[i] == third[i - first.len() - second.len() - 2]);
            }
        }
        assert(whole.subrange(0, whole.len() as int) =~= whole);
    }

    // Its fields are the three pairs.
    let all = seq![f1, f2, f3];
    assert(fields(whole) == all) by {
        lemma_fields_join(first, second);
        lemma_fields_join(first + seq![';'] + second, third);
        assert(seq![f1] + seq![f2] + seq![f3] =~= all);
    }

    // Each role is located at the pair whose key plays it.
    assert(all.drop_last() =~= seq![f1, f2]);
    assert(all.drop_last().drop_last() =~= seq![f1]);
    assert(all.drop_last().drop_last().drop_last() =~= Seq::<FieldView>::empty());
    reveal_with_fuel(located, 4);
    assert(located(all, KeyRole::DataSource) == Some(
        trim(value_of(KeyRole::DataSource, k1, v1, k2, v2, v3)),
    ));
    assert(located(all, KeyRole::UserId) == Some(
        trim(value_of(KeyRole::UserId, k1, v1, k2, v2, v3)),
    ));
    assert(located(all, KeyRole::Provider) == Some(
        trim(value_of(KeyRole::Provider, k1, v1, k2, v2, v3)),
    ));
}

/// The provider key has synonyms: any two keys that play the provider role,
/// put before the same plain value, give the same provider, the value
/// trimmed.
pub proof fn law_provider_synonyms_agree(first: Seq<char>, second: Seq<char>, value: Seq<char>)
    requires
        key_role(first) == KeyRole::Provider,
        key_role(second) == KeyRole::Provider,
        is_plain_value(value),
    ensures
        located(fields(pair_text(first, value)), KeyRole::Provider) == Some(trim(value)),
        located(fields(pair_text(second, value)), KeyRole::Provider) == located(
            fields(pair_text(first, value)),
            KeyRole::Provider,
        ),
{
    lemma_pair_fields(first, value);
    lemma_pair_fields(second, value);
    let a = seq![(trim(first), trim(value))];
    let b = seq![(trim(second), trim(value))];
    assert(a.last() == (trim(first), trim(value)));
    assert(b.last() == (trim(second), trim(value)));
}

/// The role of a key goes by its name alone: two keys that are the same
/// after trimming and folding of capitals play the same role, and the names
/// `provider` and `providername` are those of the provider role.
pub proof fn law_role_goes_by_folded_name(first: Seq<char>, second: Seq<char>)
    requires
        fold(trim(first)) == fold(trim(second)),
    ensures
        key_role(first) == key_role(second),
        fold(trim(first)) == "provider"@ || fold(trim(first)) == "providername"@ <==> key_role(first)
            == KeyRole::Provider,
{
    reveal_strlit("provider");
    reveal_strlit("providername");
    reveal_strlit("data source");
    reveal_strlit("user id");
    assert("provider"@.len() == 8);
    assert("providername"@.len() == 12);
    assert("data source"@.len() == 11);
    assert("user id"@.len() == 7);
}

/// A role is located in a list of fields only if some field has a key of
/// that role.
pub proof fn lemma_located_needs_a_key(list: Seq<FieldView>, role: KeyRole)
    ensures
        located(list, role) is Some <==> exists|i: int|
            0 <= i < list.len() && key_role(#[trigger] list[i].0) == role,
    decreases list.len(),
{
    if list.len() > 0 {
        let rest = list.drop_last();
        lemma_located_needs_a_key(rest, role);
        if key_role(list.last().0) == role {
            assert(key_role(list[list.len() - 1].0) == role);
        } else if located(rest, role) is Some {
            let i = choose|i: int| 0 <= i < rest.len() && key_role(#[trigger] rest[i].0) == role;
            assert(list[i] == rest[i]);
        } else {
            assert forall|i: int| 0 <= i < list.len() implies key_role(#[trigger] list[i].0)
                != role by {
                if i < rest.len() {
                    assert(list[i] == rest[i]);
                }
            }
        }
    }
}

/// The later field wins: among the fields of two lists, one after the other,
/// a role is located in the second list where the second list has a key of
/// it, and only else in the first.
pub proof fn law_later_field_wins(first: Seq<FieldView>, second: Seq<FieldView>, role: KeyRole)
    ensures
        located(first + second, role) == match located(second, role) {
            Some(value) => Some(value),
            None => located(first, role),
        },
    decreases second.len(),
{
    if second.len() == 0 {
        assert(first + second =~= first);
    } else {
        assert((first + second).last() == second.last());
        assert((first + second).drop_last() =~= first + second.drop_last());
        law_later_field_wins(first, second.drop_last(), role);
    }
}

/// What stands inside the connection string of a tag has precedence over
/// the attributes of the tag: a role is taken from the fields of the
/// connection strings where they have a key of it, and only else from the
/// attributes.
pub proof fn law_connection_string_has_precedence(outer: Seq<FieldView>, role: KeyRole)
    ensures
        located(tag_fields(outer), role) == match located(inner_fields(outer), role) {
            Some(value) => Some(value),
            None => located(outer, role),
        },
{
    law_later_field_wins(outer, inner_fields(outer), role);
}

/// What a candidate resolves to goes by its relevance and its fields alone:
/// nothing where it is not relevant, the error for a malformed tag where its
/// fields cannot be read, and else what the validity policy makes of its
/// fields.
pub proof fn law_resolution_goes_by_the_fields(path: Seq<char>, candidate: CandidateView)
    ensures
        candidate_resolution(path, candidate) == if !is_relevant(candidate.text) {
            Ok::<Option<ConnectionView>, ErrorView>(None)
        } else {
            match candidate_fields(candidate) {
                Some(found) => resolution(path, found),
                None => Err(malformed_error(path)),
            }
        },
{
}

/// A relevant candidate that lacks a required key is an error, never a
/// connection: where no field of the candidate has a key of one of the three
/// roles, the candidate resolves to an error, and where its fields can be
/// read at all, to the error that names the roles without a key.
pub proof fn law_missing_key_is_an_error(path: Seq<char>, candidate: CandidateView, role: KeyRole)
    requires
        role != KeyRole::Unrecognized,
        is_relevant(candidate.text),
        candidate_fields(candidate) matches Some(found) ==> forall|i: int|
            0 <= i < found.len() ==> key_role(#[trigger] found[i].0) != role,
    ensures
        candidate_resolution(path, candidate) is Err,
        candidate_fields(candidate) matches Some(found) ==> candidate_resolution(path, candidate)
            == Err::<Option<ConnectionView>, ErrorView>(missing_field_error(path, found)),
{
    match candidate_fields(candidate) {
        Some(found) => {
            lemma_located_needs_a_key(found, role);
        },
        None => {},
    }
}

/// Where exactly one of the three roles has no key among the fields of a
/// relevant candidate, the error names that role and nothing else.
pub proof fn law_single_missing_role_is_named(
    path: Seq<char>,
    candidate: CandidateView,
    found: Seq<FieldView>,
    role: KeyRole,
)
    requires
        is_relevant(candidate.text),
        candidate_fields(candidate) == Some(found),
        role != KeyRole::Unrecognized,
        located(found, role) is None,
        role != KeyRole::DataSource ==> located(found, KeyRole::DataSource) is Some,
        role != KeyRole::UserId ==> located(found, KeyRole::UserId) is Some,
        role != KeyRole::Provider ==> located(found, KeyRole::Provider) is Some,
    ensures
        candidate_resolution(path, candidate) == Err::<Option<ConnectionView>, ErrorView>(
            ErrorView { path, message: "missing required field: "@ + role_name(role) },
        ),
{
}

/// A candidate resolves to a connection exactly if it is relevant, its
/// fields can be read and a key of each of the three roles is among them;
/// the connection then holds the path of the file and, for each role, the
/// value of the last field whose key plays it.
pub proof fn law_connection_needs_every_key(path: Seq<char>, candidate: CandidateView)
    ensures
        candidate_resolution(path, candidate) matches Ok(Some(c)) <==> {
            &&& is_relevant(candidate.text)
            &&& candidate_fields(candidate) matches Some(found)
            &&& located(found, KeyRole::DataSource) is Some
            &&& located(found, KeyRole::UserId) is Some
            &&& located(found, KeyRole::Provider) is Some
        },
        candidate_resolution(path, candidate) matches Ok(Some(c)) ==> {
            &&& candidate_fields(candidate) matches Some(found)
            &&& c.path == path
            &&& Some(c.data_source) == located(found, KeyRole::DataSource)
            &&& Some(c.user_id) == located(found, KeyRole::UserId)
            &&& Some(c.provider) == located(found, KeyRole::Provider)
        },
{
}

/// Whatever its format, a relevant candidate resolves to a connection only
/// if each of the three roles is located among its fields; a candidate that
/// resolves to anything else than a connection while being relevant is an
/// error.
pub proof fn law_relevant_candidate_is_connection_or_error(
    path: Seq<char>,
    candidate: CandidateView,
)
    requires
        is_relevant(candidate.text),
    ensures
        candidate_resolution(path, candidate) != Ok::<Option<ConnectionView>, ErrorView>(None),
        candidate_resolution(path, candidate) matches Ok(Some(c)) ==> c.path == path,
        candidate_resolution(path, candidate) matches Err(e) ==> e.path == path,
{
}

/// A candidate that mentions neither `connection` nor `provider` gives
/// neither a connection nor an error, whatever its format and whatever else
/// it holds.
pub proof fn law_irrelevant_candidate_is_passed_over(
    path: Seq<char>,
    candidate: CandidateView,
    found: Findings,
)
    requires
        !is_relevant(candidate.text),
    ensures
        candidate_resolution(path, candidate) == Ok::<Option<ConnectionView>, ErrorView>(None),
        with_resolution(found, candidate_resolution(path, candidate)) == found,
{
}

/// Every finding of the candidates of a file carries the path of that file.
pub proof fn law_candidate_findings_carry_the_path(
    path: Seq<char>,
    candidates: Seq<CandidateView>,
)
    ensures
        forall|i: int|
            0 <= i < candidates_findings(path, candidates).connections.len()
                ==> #[trigger] candidates_findings(path, candidates).connections[i].path == path,
        forall|i: int|
            0 <= i < candidates_findings(path, candidates).errors.len()
                ==> #[trigger] candidates_findings(path, candidates).errors[i].path == path,
    decreases candidates.len(),
{
    if candidates.len() > 0 {
        law_candidate_findings_carry_the_path(path, candidates.drop_last());
        let before = candidates_findings(path, candidates.drop_last());
        let all = candidates_findings(path, candidates);
        let r = candidate_resolution(path, candidates.last());
        assert(all == with_resolution(before, r));
        assert(r matches Ok(Some(c)) ==> c.path == path);
        assert(r matches Err(e) ==> e.path == path);
        assert forall|i: int| 0 <= i < all.connections.len() implies #[trigger] all.connections[i].path
            == path by {
            if i < before.connections.len() {
                assert(all.connections[i] == before.connections[i]);
            }
        }
        assert forall|i: int| 0 <= i < all.errors.len() implies #[trigger] all.errors[i].path
            == path by {
            if i < before.errors.len() {
                assert(all.errors[i] == before.errors[i]);
            }
        }
    }
}

/// Every finding of a text carries the path of its file.
pub proof fn lemma_text_findings_carry_the_path(
    path: Seq<char>,
    text: Seq<char>,
    formats: Seq<Format>,
    lenient: bool,
)
    ensures
        forall|i: int|
            0 <= i < text_findings(path, text, formats, lenient).connections.len()
                ==> #[trigger] text_findings(path, text, formats, lenient).connections[i].path
                == path,
        forall|i: int|
            0 <= i < text_findings(path, text, formats, lenient).errors.len()
                ==> #[trigger] text_findings(path, text, formats, lenient).errors[i].path == path,
    decreases formats.len(),
{
    if formats.len() > 0 {
        lemma_text_findings_carry_the_path(path, text, formats.drop_last(), lenient);
        let format = formats.last();
        let found = found_candidates(format, regex_matches(pattern(format, lenient), text));
        match found {
            Some(candidates) => {
                law_candidate_findings_carry_the_path(path, candidates);
            },
            None => {},
        }
        let before = text_findings(path, text, formats.drop_last(), lenient);
        let more = search_findings(path, format, lenient, found);
        let all = text_findings(path, text, formats, lenient);
        assert(all == joined(before, more));
        assert forall|i: int| 0 <= i < all.connections.len() implies #[trigger] all.connections[i].path
            == path by {
            if i < before.connections.len() {
                assert(all.connections[i] == before.connections[i]);
            } else {
                assert(all.connections[i] == more.connections[i - before.connections.len()]);
            }
        }
        assert forall|i: int| 0 <= i < all.errors.len() implies #[trigger] all.errors[i].path
            == path by {
            if i < before.errors.len() {
                assert(all.errors[i] == before.errors[i]);
            } else {
                assert(all.errors[i] == more.errors[i - before.errors.len()]);
            }
        }
    }
}

/// Every connection and every error belongs to exactly the file that it was
/// found in: each finding of a file carries the path of that file.
pub proof fn law_file_findings_carry_the_path(file: SourceFileView, lenient: bool)
    ensures
        forall|i: int|
            0 <= i < file_findings(file, lenient).connections.len()
                ==> #[trigger] file_findings(file, lenient).connections[i].path == file.path,
        forall|i: int|
            0 <= i < file_findings(file, lenient).errors.len() ==> #[trigger] file_findings(
                file,
                lenient,
            ).errors[i].path == file.path,
{
    let formats = formats_for(extension(file.path));
    match file.content {
        ContentView::Text(text) => {
            lemma_text_findings_carry_the_path(file.path, text, formats, lenient);
        },
        ContentView::Unreadable(reason) => {},
    }
}

/// The findings of a list of files are those of its files, in the order of
/// the files: what the files before a file gave stays in front, and what a
/// file gives does not depend on the other files.
pub proof fn law_files_are_searched_one_by_one(
    before: Seq<SourceFileView>,
    file: SourceFileView,
    lenient: bool,
)
    ensures
        files_findings(before.push(file), lenient) == joined(
            files_findings(before, lenient),
            file_findings(file, lenient),
        ),
{
    assert(before.push(file).drop_last() =~= before);
}

/// A file whose extension is not one of those searched gives nothing,
/// whatever it holds and whether or not it could be read.
pub proof fn law_unlisted_file_gives_nothing(file: SourceFileView, lenient: bool)
    requires
        !is_allowed(file.path),
    ensures
        file_findings(file, lenient) == no_findings(),
{
}

/// The last component of a path made of a directory, a separator and a name
/// is the name.
pub proof fn lemma_file_name_of_joined(directory: Seq<char>, separator: char, name: Seq<char>)
    requires
        is_separator(separator),
        forall|i: int| 0 <= i < name.len() ==> !is_separator(name[i]),
    ensures
        name_length(directory + seq![separator] + name) == name.len(),
        file_name(directory + seq![separator] + name) == name,
    decreases name.len(),
{
    let path = directory + seq![separator] + name;
    if name.len() > 0 {
        let shorter = name.drop_last();
        lemma_file_name_of_joined(directory, separator, shorter);
        assert(path.drop_last() =~= directory + seq![separator] + shorter);
        assert(path.last() == name.last());
    } else {
        assert(path.last() == separator);
    }
    assert(path.subrange(path.len() - name.len(), path.len() as int) =~= name);
}

/// Whether a file is searched goes by its name alone: however deep in
/// directories a file lies, it is searched exactly if a file of that name
/// is.
pub proof fn law_depth_does_not_matter(directory: Seq<char>, separator: char, name: Seq<char>)
    requires
        is_separator(separator),
        forall|i: int| 0 <= i < name.len() ==> !is_separator(name[i]),
    ensures
        extension(directory + seq![separator] + name) == name_extension(name),
        is_allowed(directory + seq![separator] + name) == (formats_for(name_extension(name)).len()
            > 0),
{
    lemma_file_name_of_joined(directory, separator, name);
}

/// Running the pipeline again on unchanged files gives the same tables:
/// the tables are determined by the files and the mode.
pub proof fn law_same_files_same_tables(
    first: Seq<SourceFileView>,
    second: Seq<SourceFileView>,
    lenient: bool,
)
    requires
        first.len() == second.len(),
        forall|i: int| 0 <= i < first.len() ==> first[i] == second[i],
    ensures
        connection_rows(files_findings(first, lenient).connections) == connection_rows(
            files_findings(second, lenient).connections,
        ),
        error_rows(files_findings(first, lenient).errors) == error_rows(
            files_findings(second, lenient).errors,
        ),
{
    assert(first =~= second);
}

/// A literal between double quotes.
pub open spec fn quoted(body: Seq<char>) -> Seq<char> {
    seq!['"'] + body + seq!['"']
}

/// A literal between `("` and `")`.
pub open spec fn parenthesized(body: Seq<char>) -> Seq<char> {
    seq!['(', '"'] + body + seq!['"', ')']
}

/// The wrapping of a literal does not matter: a connection string between
/// double quotes and the same between `("` and `")` resolve alike, to what
/// the validity policy makes of the fields of the connection string where
/// it is relevant, and to nothing where it is not.
pub proof fn law_wrapping_does_not_matter(path: Seq<char>, body: Seq<char>)
    ensures
        literal_body(quoted(body)) == body,
        literal_body(parenthesized(body)) == body,
        is_relevant(quoted(body)) == is_relevant(body),
        is_relevant(parenthesized(body)) == is_relevant(body),
        literal_resolution(path, quoted(body)) == literal_resolution(path, parenthesized(body)),
        literal_resolution(path, quoted(body)) == if is_relevant(body) {
            resolution(path, fields(body))
        } else {
            Ok::<Option<ConnectionView>, ErrorView>(None)
        },
{
    reveal_strlit("connection");
    reveal_strlit("provider");
    let q = quoted(body);
    let p = parenthesized(body);
    assert(q.subrange(1, q.len() as int) =~= body + seq!['"']);
    assert((body + seq!['"']).subrange(0, body.len() as int) =~= body);
    assert(p.subrange(2, p.len() as int) =~= body + seq!['"', ')']);
    assert((body + seq!['"', ')']).subrange(0, body.len() as int) =~= body);
    lemma_mentions_inside(seq!['"'], body, seq!['"'], "connection"@);
    lemma_mentions_inside(seq!['"'], body, seq!['"'], "provider"@);
    lemma_mentions_inside(seq!['(', '"'], body, seq!['"', ')'], "connection"@);
    lemma_mentions_inside(seq!['(', '"'], body, seq!['"', ')'], "provider"@);
}

/// Candidates are resolved each on its own and in order: the findings of
/// two lists of candidates of a file, one after the other, are the findings
/// of the first followed by those of the second.
pub proof fn law_candidates_resolve_independently(
    path: Seq<char>,
    first: Seq<CandidateView>,
    second: Seq<CandidateView>,
)
    ensures
        candidates_findings(path, first + second) == joined(
            candidates_findings(path, first),
            candidates_findings(path, second),
        ),
    decreases second.len(),
{
    let a = candidates_findings(path, first);
    if second.len() == 0 {
        assert(first + second =~= first);
        assert(a.connections + Seq::<ConnectionView>::empty() =~= a.connections);
        assert(a.errors + Seq::<ErrorView>::empty() =~= a.errors);
    } else {
        let shorter = second.drop_last();
        law_candidates_resolve_independently(path, first, shorter);
        assert((first + second).drop_last() =~= first + shorter);
        assert((first + second).last() == second.last());
        let b = candidates_findings(path, shorter);
        match candidate_resolution(path, second.last()) {
            Ok(Some(c)) => {
                assert((a.connections + b.connections).push(c) =~= a.connections
                    + b.connections.push(c));
            },
            Ok(None) => {},
            Err(e) => {
                assert((a.errors + b.errors).push(e) =~= a.errors + b.errors.push(e));
            },
        }
    }
}

/// What the lines of a settings element give: the findings of its
/// non-blank lines, each taken as a candidate of its own.
pub open spec fn lines_findings(path: Seq<char>, element: Seq<char>) -> Findings {
    candidates_findings(path, tagged(nonblank(split(element, '\n')), Format::JsonBlock))
}

/// The lines of a settings element resolve one by one: what two elements
/// joined by a line break give is what the first gives followed by what the
/// second gives. No field of one line passes to another, no line is left
/// out for what stands before it, and the order of the lines is kept.
pub proof fn law_lines_resolve_one_by_one(path: Seq<char>, first: Seq<char>, second: Seq<char>)
    ensures
        lines_findings(path, first + seq!['\n'] + second) == joined(
            lines_findings(path, first),
            lines_findings(path, second),
        ),
{
    lemma_lines_join(first, second);
    law_candidates_resolve_independently(
        path,
        tagged(block_lines(first), Format::JsonBlock),
        tagged(block_lines(second), Format::JsonBlock),
    );
}

/// A settings element of one line gives what that line resolves to: a
/// relevant line without one of the three keys gives an error even where no
/// brace stands around it.
pub proof fn law_single_line_element(path: Seq<char>, line: Seq<char>)
    requires
        forall|i: int| 0 <= i < line.len() ==> line[i] != '\n',
    ensures
        lines_findings(path, line) == if trim(line).len() > 0 {
            with_resolution(no_findings(), json_line_resolution(path, line))
        } else {
            no_findings()
        },
{
    lemma_lines_of_one_line(line);
    if trim(line).len() > 0 {
        let all = tagged(seq![line], Format::JsonBlock);
        assert(nonblank(split(line, '\n')) == seq![line]);
        assert(all.len() == 1);
        assert(all.last() == CandidateView { text: line, format: Format::JsonBlock });
        assert(all.drop_last() =~= Seq::<CandidateView>::empty());
        assert(candidates_findings(path, all.drop_last()) == no_findings());
        assert(candidate_resolution(path, all.last()) == json_line_resolution(path, line));
        assert(candidates_findings(path, all) == with_resolution(
            candidates_findings(path, all.drop_last()),
            candidate_resolution(path, all.last()),
        ));
    } else {
        assert(nonblank(split(line, '\n')) == Seq::<Seq<char>>::empty());
        assert(tagged(Seq::<Seq<char>>::empty(), Format::JsonBlock) =~= Seq::<
            CandidateView,
        >::empty());
    }
}

/// A text without the `("` or the `"` that opens a literal.
pub open spec fn opening_stripped(before: Seq<char>) -> Seq<char> {
    if before.len() >= 2 && before[0] == '(' && before[1] == '"' {
        before.subrange(2, before.len() as int)
    } else if before.len() >= 1 && before[0] == '"' {
        before.subrange(1, before.len() as int)
    } else {
        before
    }
}

/// A text without the `")` or the `"` that closes a literal.
pub open spec fn closing_stripped(after: Seq<char>) -> Seq<char> {
    if after.len() >= 2 && after[after.len() - 2] == '"' && after[after.len() - 1] == ')' {
        after.subrange(0, after.len() - 2)
    } else if after.len() >= 1 && after[after.len() - 1] == '"' {
        after.subrange(0, after.len() - 1)
    } else {
        after
    }
}

/// The fields of what stands before a segment: none where nothing stands
/// there, and else the fields of the text before the `;` that ends it.
pub open spec fn fields_before(before: Seq<char>) -> Seq<FieldView> {
    if before.len() == 0 {
        Seq::empty()
    } else {
        fields(before.drop_last())
    }
}

/// The fields of what stands behind the first `;` of a text.
pub open spec fn fields_behind(after: Seq<char>) -> Seq<FieldView> {
    let i = find_char(after, ';');
    if i < after.len() {
        fields(after.subrange(i + 1, after.len() as int))
    } else {
        Seq::empty()
    }
}

/// The value of a segment: what stands before the first `;` of the text
/// behind its `=`, cleaned.
pub open spec fn value_before_semicolon(after: Seq<char>) -> Seq<char> {
    clean(after.subrange(0, find_char(after, ';')))
}

/// The body of a literal in which a key that plays a role stands: the
/// wrapping is taken from what stands around the key, and the key stays.
pub proof fn lemma_body_around_key(before: Seq<char>, key: Seq<char>, after: Seq<char>)
    requires
        key_role(key) != KeyRole::Unrecognized,
    ensures
        literal_body(before + key + seq!['='] + after) == opening_stripped(before) + key + seq![
            '=',
        ] + closing_stripped(after),
{
    lemma_key_is_plain(key);
    let whole = before + key + seq!['='] + after;
    let n = whole.len() as int;
    assert(key.len() >= 7);
    assert(!is_delimiter(key[0]));
    // The opening.
    let cut: int = if whole.len() >= 2 && whole[0] == '(' && whole[1] == '"' {
        2
    } else if whole.len() >= 1 && whole[0] == '"' {
        1
    } else {
        0
    };
    if before.len() == 0 {
        assert(whole[0] == key[0]);
    } else if before.len() == 1 {
        assert(whole[0] == before[0]);
        assert(whole[1] == key[0]);
    } else {
        assert(whole[0] == before[0]);
        assert(whole[1] == before[1]);
    }
    assert(cut <= before.len());
    let a = whole.subrange(cut, n);
    assert(a =~= opening_stripped(before) + key + seq!['='] + after);
    assert(whole.subrange(0, n) =~= whole);
    // The closing.
    let m = a.len() as int;
    let p = opening_stripped(before) + key + seq!['='];
    assert(a =~= p + after);
    assert(p.last() == '=');
    if after.len() == 0 {
        assert(a[m - 1] == '=');
    } else if after.len() == 1 {
        assert(a[m - 1] == after[0]);
        assert(a[m - 2] == '=');
    } else {
        assert(a[m - 1] == after[after.len() - 1]);
        assert(a[m - 2] == after[after.len() - 2]);
    }
    assert(a.subrange(0, m) =~= a);
    if after.len() >= 1 {
        assert(a.subrange(0, m - 1) =~= p + after.subrange(0, after.len() - 1));
    }
    if after.len() >= 2 {
        assert(a.subrange(0, m - 2) =~= p + after.subrange(0, after.len() - 2));
    }
}

/// The fields of a body in which a key that plays a role opens a segment:
/// the fields before the segment, the field of the key, and the fields
/// behind the segment.
pub proof fn lemma_fields_around_key(before: Seq<char>, key: Seq<char>, after: Seq<char>)
    requires
        key_role(key) != KeyRole::Unrecognized,
        before.len() == 0 || before.last() == ';',
    ensures
        fields(before + key + seq!['='] + after) == fields_before(before) + seq![
            (trim(key), value_before_semicolon(after)),
        ] + fields_behind(after),
{
    lemma_key_is_plain(key);
    lemma_clean_key_keeps_role(key);
    let segment_on = key + seq!['='] + after;
    let i = find_char(after, ';');
    lemma_find_char(after, ';');
    let at = key.len() + 1 + i;
    assert forall|j: int| 0 <= j < at implies segment_on[j] != ';' by {
        if j < key.len() {
            assert(segment_on[j] == key[j]);
            assert(!is_delimiter(key[j]));
        } else if j > key.len() {
            assert(segment_on[j] == after[j - key.len() - 1]);
        }
    }
    if i < after.len() {
        assert(segment_on[at] == after[i]);
    }
    lemma_find_char_is(segment_on, ';', at);
    lemma_fields_unfold(segment_on);
    let value = after.subrange(0, i);
    assert(segment_on.subrange(0, at) =~= key + seq!['='] + value);
    lemma_segment_field(key, value);
    if i < after.len() {
        assert(segment_on.subrange(at + 1, segment_on.len() as int) =~= after.subrange(
            i + 1,
            after.len() as int,
        ));
    }
    let field = seq![(trim(key), value_before_semicolon(after))];
    assert(fields(segment_on) == field + fields_behind(after));
    if before.len() == 0 {
        assert(before + key + seq!['='] + after =~= segment_on);
        assert(fields_before(before) + field + fields_behind(after) =~= field + fields_behind(
            after,
        ));
    } else {
        let start = before.drop_last();
        assert(before + key + seq!['='] + after =~= start + seq![';'] + segment_on);
        lemma_fields_join(start, segment_on);
        assert(fields(start) + (field + fields_behind(after)) =~= fields(start) + field
            + fields_behind(after));
    }
}

/// Two lists of fields that agree in their values and in the roles of their
/// keys locate every role alike.
pub proof fn lemma_located_by_roles(first: Seq<FieldView>, second: Seq<FieldView>, role: KeyRole)
    requires
        first.len() == second.len(),
        forall|i: int|
            0 <= i < first.len() ==> first[i].1 == second[i].1 && key_role(first[i].0) == key_role(
                second[i].0,
            ),
    ensures
        located(first, role) == located(second, role),
    decreases first.len(),
{
    if first.len() > 0 {
        let a = first.drop_last();
        let b = second.drop_last();
        assert forall|i: int| 0 <= i < a.len() implies a[i].1 == b[i].1 && key_role(a[i].0)
            == key_role(b[i].0) by {
            assert(a[i] == first[i]);
            assert(b[i] == second[i]);
        }
        lemma_located_by_roles(a, b, role);
        assert(first.last() == first[first.len() - 1]);
        assert(second.last() == second[second.len() - 1]);
    }
}

/// A key can be replaced by any other key of its role: in a body where a
/// key that plays a role opens a segment, putting another key of the same
/// role in its place, in whatever case and with whatever white space
/// around it, leaves what the validity policy makes of the fields as it is.
pub proof fn law_key_of_the_same_role_can_replace(
    path: Seq<char>,
    before: Seq<char>,
    first: Seq<char>,
    second: Seq<char>,
    after: Seq<char>,
)
    requires
        key_role(first) != KeyRole::Unrecognized,
        key_role(second) == key_role(first),
        before.len() == 0 || before.last() == ';',
    ensures
        resolution(path, fields(before + first + seq!['='] + after)) == resolution(
            path,
            fields(before + second + seq!['='] + after),
        ),
{
    lemma_fields_around_key(before, first, after);
    lemma_fields_around_key(before, second, after);
    lemma_clean_key_keeps_role(first);
    lemma_clean_key_keeps_role(second);
    let value = value_before_semicolon(after);
    let a = fields(before + first + seq!['='] + after);
    let b = fields(before + second + seq!['='] + after);
    let front = fields_before(before);
    assert(a.len() == b.len());
    assert forall|i: int| 0 <= i < a.len() implies a[i].1 == b[i].1 && key_role(a[i].0)
        == key_role(b[i].0) by {
        if i < front.len() {
            assert(a[i] == front[i]);
            assert(b[i] == front[i]);
        } else if i == front.len() {
            assert(a[i] == (trim(first), value));
            assert(b[i] == (trim(second), value));
        } else {
            assert(a[i] == fields_behind(after)[i - front.len() - 1]);
            assert(b[i] == fields_behind(after)[i - front.len() - 1]);
        }
    }
    lemma_located_by_roles(a, b, KeyRole::DataSource);
    lemma_located_by_roles(a, b, KeyRole::UserId);
    lemma_located_by_roles(a, b, KeyRole::Provider);
}

/// The provider key can be replaced by any of its synonyms inside any
/// literal: where a segment of a literal opens with a key that plays the
/// provider role, the literal resolves to the same with any other key of
/// that role in its place, `provider` or `providername` in whatever case and
/// with whatever white space around it. What stands before the key and
/// behind its `=` is free.
pub proof fn law_provider_synonym_can_replace(
    path: Seq<char>,
    before: Seq<char>,
    first: Seq<char>,
    second: Seq<char>,
    after: Seq<char>,
)
    requires
        key_role(first) == KeyRole::Provider,
        key_role(second) == KeyRole::Provider,
        opening_stripped(before).len() == 0 || opening_stripped(before).last() == ';',
    ensures
        literal_resolution(path, before + first + seq!['='] + after) == literal_resolution(
            path,
            before + second + seq!['='] + after,
        ),
{
    lemma_provider_key_is_relevant(before, first, seq!['='] + after);
    lemma_provider_key_is_relevant(before, second, seq!['='] + after);
    assert(before + first + (seq!['='] + after) =~= before + first + seq!['='] + after);
    assert(before + second + (seq!['='] + after) =~= before + second + seq!['='] + after);
    lemma_body_around_key(before, first, after);
    lemma_body_around_key(before, second, after);
    law_key_of_the_same_role_can_replace(
        path,
        opening_stripped(before),
        first,
        second,
        closing_stripped(after),
    );
}

} // verus!
