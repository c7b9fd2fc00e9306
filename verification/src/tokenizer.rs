//! Field tokenisation: from the body of a declaration to its `key=value`
//! pairs.
//!
//! Two dialects are handled. A connection-string body separates its pairs
//! with `;`. A tag body is a list of attributes, `name="value"`, whose values
//! may themselves hold `;` and `=`.

use crate::text::{
    chars_of, clean, clean_slice, find_char, find_from, is_space, is_space_char, lemma_find_char,
    lemma_find_char_is,
    lemma_trim_start, skip_spaces, split, string_of, strip_quotes, strip_quotes_slice, trim_end,
    trim_end_slice, trim_start,
};
use vstd::prelude::*;
use vstd::slice::slice_subrange;

verus! {

/// One `key=value` pair of a declaration, as it stands in the text.
#[derive(Clone, Debug, PartialEq, Eq)]
pub struct Field {
    pub key: String,
    pub value: String,
}

/// A field as a pair of texts: key first, value second.
pub type FieldView = (Seq<char>, Seq<char>);

impl View for Field {
    type V = FieldView;

    open spec fn view(&self) -> FieldView {
        (self.key@, self.value@)
    }
}

impl DeepView for Field {
    type V = FieldView;

    open spec fn deep_view(&self) -> FieldView {
        self@
    }
}

/// The pair that one `;`-delimited segment holds: the segment is cut at its
/// first `=` only, and both sides are cleaned. A segment without `=` holds
/// none. An empty value is a value.
pub open spec fn segment_field(segment: Seq<char>) -> Option<FieldView> {
    let e = find_char(segment, '=');
    if 0 <= e < segment.len() {
        Some((clean(segment.subrange(0, e)), clean(segment.subrange(e + 1, segment.len() as int))))
    } else {
        None
    }
}

/// The pairs of a list of segments, in order; segments without `=` are
/// passed over.
pub open spec fn segment_fields(segments: Seq<Seq<char>>) -> Seq<FieldView>
    decreases segments.len(),
{
    if segments.len() == 0 {
        Seq::empty()
    } else {
        let rest = segment_fields(segments.drop_first());
        match segment_field(segments.first()) {
            Some(f) => seq![f] + rest,
            None => rest,
        }
    }
}

/// The pairs of a connection-string body.
pub open spec fn fields(body: Seq<char>) -> Seq<FieldView> {
    segment_fields(split(body, ';'))
}

/// Length of the name that ends `s`: its longest suffix free of white space
/// and of `<`.
pub open spec fn name_len(s: Seq<char>) -> nat
    decreases s.len(),
{
    if s.len() == 0 || is_space(s.last()) || s.last() == '<' {
        0
    } else {
        1 + name_len(s.drop_last())
    }
}

/// The attribute name in the text that precedes an `=`: the last word before
/// it, without one layer of quotes.
pub open spec fn attribute_name(before: Seq<char>) -> Seq<char> {
    let t = trim_end(before);
    strip_quotes(t.subrange(t.len() - name_len(t), t.len() as int))
}

/// The attributes of a tag body, or `None` where the body is malformed: an
/// `=` that no double-quoted value follows, or a value whose closing quote
/// is missing. Text after the last attribute is passed over.
pub open spec fn attributes(body: Seq<char>) -> Option<Seq<FieldView>>
    decreases body.len(),
{
    let e = find_char(body, '=');
    if !(0 <= e < body.len()) {
        Some(Seq::empty())
    } else {
        let after = trim_start(body.subrange(e + 1, body.len() as int));
        if after.len() == 0 || after.first() != '"' {
            None
        } else {
            let inside = after.drop_first();
            let q = find_char(inside, '"');
            if !(0 <= q < inside.len()) {
                None
            } else {
                proof {
                    lemma_trim_start(body.subrange(e + 1, body.len() as int));
                }
                match attributes(inside.subrange(q + 1, inside.len() as int)) {
                    Some(rest) => Some(
                        seq![(attribute_name(body.subrange(0, e)), inside.subrange(0, q))] + rest,
                    ),
                    None => None,
                }
            }
        }
    }
}

/// `rest` put behind `done`, where there is a `rest`.
pub open spec fn followed_by(done: Seq<FieldView>, rest: Option<Seq<FieldView>>) -> Option<
    Seq<FieldView>,
> {
    match rest {
        Some(r) => Some(done + r),
        None => None,
    }
}

/// The pairs of a body are the pair of its first segment, where it holds
/// one, followed by the pairs of what stands behind the first `;`.
pub proof fn lemma_fields_unfold(body: Seq<char>)
    ensures
        ({
            let i = find_char(body, ';');
            let head = match segment_field(body.subrange(0, i)) {
                Some(f) => seq![f],
                None => Seq::empty(),
            };
            let tail = if i < body.len() {
                fields(body.subrange(i + 1, body.len() as int))
            } else {
                Seq::empty()
            };
            fields(body) == head + tail
        }),
{
    lemma_find_char(body, ';');
    let i = find_char(body, ';');
    let first = body.subrange(0, i);
    if i < body.len() {
        let others = split(body.subrange(i + 1, body.len() as int), ';');
        let all = seq![first] + others;
        assert(all.first() == first);
        assert(all.drop_first() =~= others);
        assert(segment_fields(others) =~= Seq::<FieldView>::empty() + segment_fields(others));
    } else {
        assert(first =~= body);
        let all = seq![body];
        assert(all.drop_first() =~= Seq::<Seq<char>>::empty());
        assert(segment_fields(all.drop_first()) =~= Seq::<FieldView>::empty());
        match segment_field(body) {
            Some(f) => {
                assert(seq![f] + Seq::<FieldView>::empty() =~= seq![f]);
            },
            None => {},
        }
    }
}

/// A key without `=`, an `=` and a value make a segment that holds the pair
/// of the two, cleaned.
pub proof fn lemma_segment_field(key: Seq<char>, value: Seq<char>)
    requires
        forall|i: int| 0 <= i < key.len() ==> key[i] != '=',
    ensures
        segment_field(key + seq!['='] + value) == Some((clean(key), clean(value))),
{
    let segment = key + seq!['='] + value;
    lemma_find_char_is(segment, '=', key.len() as int);
    assert(segment.subrange(0, key.len() as int) =~= key);
    assert(segment.subrange(key.len() as int + 1, segment.len() as int) =~= value);
}

/// The pairs of a body without `;` are the pair of its only segment.
pub proof fn lemma_fields_of_segment(segment: Seq<char>)
    requires
        forall|i: int| 0 <= i < segment.len() ==> segment[i] != ';',
    ensures
        fields(segment) == match segment_field(segment) {
            Some(f) => seq![f],
            None => Seq::empty(),
        },
{
    lemma_find_char_is(segment, ';', segment.len() as int);
    lemma_fields_unfold(segment);
    assert(segment.subrange(0, segment.len() as int) =~= segment);
    match segment_field(segment) {
        Some(f) => {
            assert(seq![f] + Seq::<FieldView>::empty() =~= seq![f]);
        },
        None => {
            assert(Seq::<FieldView>::empty() + Seq::<FieldView>::empty() =~= Seq::<
                FieldView,
            >::empty());
        },
    }
}

/// The pairs of two bodies joined by `;` are the pairs of the first followed
/// by the pairs of the second.
pub proof fn lemma_fields_join(first: Seq<char>, second: Seq<char>)
    ensures
        fields(first + seq![';'] + second) == fields(first) + fields(second),
    decreases first.len(),
{
    let whole = first + seq![';'] + second;
    let i = find_char(first, ';');
    lemma_find_char(first, ';');
    lemma_find_char_is(whole, ';', i);
    lemma_fields_unfold(whole);
    lemma_fields_unfold(first);
    assert(whole.subrange(0, i) =~= first.subrange(0, i));
    let head = match segment_field(first.subrange(0, i)) {
        Some(f) => seq![f],
        None => Seq::empty(),
    };
    if i < first.len() {
        let rest = first.subrange(i + 1, first.len() as int);
        assert(whole.subrange(i + 1, whole.len() as int) =~= rest + seq![';'] + second);
        lemma_fields_join(rest, second);
        assert(head + (fields(rest) + fields(second)) =~= (head + fields(rest)) + fields(second));
    } else {
        assert(whole.subrange(i + 1, whole.len() as int) =~= second);
        assert(head + Seq::<FieldView>::empty() =~= head);
    }
}

/// The pair of one segment, where it holds one.
pub fn field_of_segment(segment: &[char]) -> (r: Option<Field>)
    ensures
        r.deep_view() == segment_field(segment@),
{
    let n = segment.len();
    assert(segment@.subrange(0, n as int) =~= segment@);
    let e = find_from(segment, 0, '=');
    if e < n {
        let key = clean_slice(slice_subrange(segment, 0, e));
        let value = clean_slice(slice_subrange(segment, e + 1, n));
        Some(Field { key: string_of(key), value: string_of(value) })
    } else {
        None
    }
}

/// Executable form of [`fields`] on characters.
pub fn tokenize_chars(body: &[char]) -> (r: Vec<Field>)
    ensures
        r.deep_view() == fields(body@),
{
    let n = body.len();
    let mut out: Vec<Field> = Vec::new();
    let mut pos: usize = 0;
    assert(body@.subrange(0, n as int) =~= body@);
    assert(out.deep_view() + fields(body@) =~= fields(body@));
    loop
        invariant
            n == body@.len(),
            pos <= n,
            fields(body@) == out.deep_view() + fields(body@.subrange(pos as int, n as int)),
        decreases n - pos,
    {
        let ghost rest = body@.subrange(pos as int, n as int);
        let ghost done = out.deep_view();
        let end = find_from(body, pos, ';');
        proof {
            lemma_fields_unfold(rest);
            assert(rest.subrange(0, end - pos) =~= body@.subrange(pos as int, end as int));
            if end < n {
                assert(rest.subrange(end - pos + 1, rest.len() as int) =~= body@.subrange(
                    end + 1,
                    n as int,
                ));
            }
        }
        match field_of_segment(slice_subrange(body, pos, end)) {
            Some(f) => {
                out.push(f);
                assert(out.deep_view() =~= done + seq![f.deep_view()]);
            },
            None => {
                assert(done + Seq::<FieldView>::empty() =~= done);
            },
        }
        if end >= n {
            assert(out.deep_view() + Seq::<FieldView>::empty() =~= out.deep_view());
            return out;
        }
        assert(fields(body@) =~= out.deep_view() + fields(body@.subrange(end + 1, n as int)));
        pos = end + 1;
    }
}

/// The `key=value` pairs of a connection-string body, in order. Each
/// `;`-delimited segment is cut at its first `=`; key and value are trimmed
/// and lose one layer of double quotes; a segment without `=` gives no pair.
pub fn tokenize(body: &str) -> (r: Vec<Field>)
    ensures
        r.deep_view() == fields(body@),
{
    tokenize_chars(chars_of(body).as_slice())
}

/// Executable form of [`attribute_name`].
pub fn attribute_name_slice(before: &[char]) -> (r: &[char])
    ensures
        r@ == attribute_name(before@),
{
    let t = trim_end_slice(before);
    let n = t.len();
    let mut i: usize = n;
    assert(t@.subrange(0, n as int) =~= t@);
    while i > 0 && !is_space_char(t[i - 1]) && t[i - 1] != '<'
        invariant
            n == t@.len(),
            i <= n,
            name_len(t@) == (n - i) + name_len(t@.subrange(0, i as int)),
        decreases i,
    {
        assert(t@.subrange(0, i as int).drop_last() =~= t@.subrange(0, i - 1));
        i -= 1;
    }
    strip_quotes_slice(slice_subrange(t, i, n))
}

/// Executable form of [`attributes`] on characters.
pub fn scan_attributes(body: &[char]) -> (r: Option<Vec<Field>>)
    ensures
        r.deep_view() == attributes(body@),
{
    let n = body.len();
    let mut out: Vec<Field> = Vec::new();
    let mut pos: usize = 0;
    assert(body@.subrange(0, n as int) =~= body@);
    assert(out.deep_view() =~= Seq::<FieldView>::empty());
    loop
        invariant
            n == body@.len(),
            pos <= n,
            attributes(body@) == followed_by(
                out.deep_view(),
                attributes(body@.subrange(pos as int, n as int)),
            ),
        decreases n - pos,
    {
        let ghost rest = body@.subrange(pos as int, n as int);
        let ghost done = out.deep_view();
        let e = find_from(body, pos, '=');
        if e >= n {
            assert(done + Seq::<FieldView>::empty() =~= done);
            return Some(out);
        }
        let v = skip_spaces(body, e + 1);
        assert(rest.subrange(e - pos + 1, rest.len() as int) =~= body@.subrange(e + 1, n as int));
        if v >= n || body[v] != '"' {
            return None;
        }
        let ghost inside = body@.subrange(v as int, n as int).drop_first();
        assert(inside =~= body@.subrange(v + 1, n as int));
        let q = find_from(body, v + 1, '"');
        if q >= n {
            return None;
        }
        let name = attribute_name_slice(slice_subrange(body, pos, e));
        let value = slice_subrange(body, v + 1, q);
        let f = Field { key: string_of(name), value: string_of(value) };
        proof {
            assert(rest.subrange(0, e - pos) =~= body@.subrange(pos as int, e as int));
            assert(inside.subrange(0, q - v - 1) =~= body@.subrange(v + 1, q as int));
            assert(inside.subrange(q - v, inside.len() as int) =~= body@.subrange(q + 1, n as int));
            let tail = attributes(body@.subrange(q + 1, n as int));
            assert(attributes(rest) == followed_by(seq![f.deep_view()], tail));
        }
        out.push(f);
        proof {
            assert(out.deep_view() =~= done + seq![f.deep_view()]);
            match attributes(body@.subrange(q + 1, n as int)) {
                Some(t) => {
                    assert(done + (seq![f.deep_view()] + t) =~= out.deep_view() + t);
                },
                None => {},
            }
        }
        pos = q + 1;
    }
}

/// The attributes of a tag body, in order: each `name="value"` gives the
/// pair of the name and of the text between the quotes. `None` where an `=`
/// is not followed by a double-quoted value that is closed.
pub fn tokenize_attributes(body: &str) -> (r: Option<Vec<Field>>)
    ensures
        r.deep_view() == attributes(body@),
{
    scan_attributes(chars_of(body).as_slice())
}

} // verus!
