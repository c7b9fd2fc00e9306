//! Candidate extraction: from the text of a file to the substrings that may
//! hold a connection declaration.
//!
//! Four formats are known. Each has a pattern that is matched against the
//! whole text, across lines, by the `regex` crate.

use crate::text::{
    chars_of, find_char, find_from, lemma_find_char, lemma_split_join, lemma_split_one, split,
    string_of, trim, trim_slice,
};
use regex::Regex;
use vstd::prelude::*;
use vstd::slice::slice_subrange;

verus! {

/// The textual form in which a declaration is written.
#[derive(Clone, Copy, Debug, PartialEq, Eq, Structural)]
pub enum Format {
    /// A tag with attributes: `<add name=".." connectionString=".." />`.
    AttributeBlock,
    /// A connection string between `("` and `")`.
    ParenthesizedLiteral,
    /// A connection string between double quotes.
    QuotedLiteral,
    /// The lines of a block that runs from `ConnectionStrings` to the next
    /// `}`.
    JsonBlock,
}

/// A substring of a file that may hold one declaration, with the format that
/// it was found in.
#[derive(Clone, Debug, PartialEq, Eq)]
pub struct Candidate {
    pub text: String,
    pub format: Format,
}

/// A candidate as text.
pub struct CandidateView {
    pub text: Seq<char>,
    pub format: Format,
}

impl View for Candidate {
    type V = CandidateView;

    open spec fn view(&self) -> CandidateView {
        CandidateView { text: self.text@, format: self.format }
    }
}

impl DeepView for Candidate {
    type V = CandidateView;

    open spec fn deep_view(&self) -> CandidateView {
        self@
    }
}

/// The pattern of a format. Every pattern matches across lines and takes the
/// shortest text up to its closing delimiter. In lenient mode any tag is an
/// attribute block, not only `<add ..>`.
pub open spec fn pattern(format: Format, lenient: bool) -> Seq<char> {
    match format {
        Format::AttributeBlock => if lenient {
            "(?s)<.*?>"@
        } else {
            "(?s)<add .*?>"@
        },
        Format::ParenthesizedLiteral => "(?s)\\(\".*?\"\\)"@,
        Format::QuotedLiteral => "(?s)\".*?\""@,
        Format::JsonBlock => "(?s)ConnectionStrings.*?\\}"@,
    }
}

/// Executable form of [`pattern`].
pub fn pattern_of(format: Format, lenient: bool) -> (p: &'static str)
    ensures
        p@ == pattern(format, lenient),
{
    match format {
        Format::AttributeBlock => if lenient {
            "(?s)<.*?>"
        } else {
            "(?s)<add .*?>"
        },
        Format::ParenthesizedLiteral => "(?s)\\(\".*?\"\\)",
        Format::QuotedLiteral => "(?s)\".*?\"",
        Format::JsonBlock => "(?s)ConnectionStrings.*?\\}",
    }
}

/// What the `regex` crate finds of `pattern` in `haystack`: the successive
/// non-overlapping matches, from left to right, each as the text that
/// matched; `None` where the crate does not accept the pattern.
pub uninterp spec fn regex_matches(pattern: Seq<char>, haystack: Seq<char>) -> Option<
    Seq<Seq<char>>,
>;

/// Compiles `pattern` with `regex::Regex::new` and collects what
/// `Regex::find_iter` yields on `haystack`. The contract only gives that
/// result its name, [`regex_matches`]: nothing is claimed of which texts
/// match.
#[verifier::external_body]
fn find_all(pattern: &str, haystack: &str) -> (found: Option<Vec<String>>)
    ensures
        found.deep_view() == regex_matches(pattern@, haystack@),
{
    match Regex::new(pattern) {
        Ok(re) => Some(re.find_iter(haystack).map(|m| m.as_str().to_owned()).collect()),
        Err(_) => None,
    }
}

/// The lines that hold more than white space, in order.
pub open spec fn nonblank(lines: Seq<Seq<char>>) -> Seq<Seq<char>>
    decreases lines.len(),
{
    if lines.len() == 0 {
        Seq::empty()
    } else if trim(lines.first()).len() > 0 {
        seq![lines.first()] + nonblank(lines.drop_first())
    } else {
        nonblank(lines.drop_first())
    }
}

/// The candidate lines of one settings block: every line of the block that
/// holds more than white space, the line with the marker and the line with
/// the closing brace among them.
pub open spec fn block_lines(block: Seq<char>) -> Seq<Seq<char>> {
    nonblank(split(block, '\n'))
}

/// The candidate lines of several settings blocks, block after block.
pub open spec fn blocks_lines(blocks: Seq<Seq<char>>) -> Seq<Seq<char>>
    decreases blocks.len(),
{
    if blocks.len() == 0 {
        Seq::empty()
    } else {
        blocks_lines(blocks.drop_last()) + block_lines(blocks.last())
    }
}

/// Each text as a candidate of `format`.
pub open spec fn tagged(texts: Seq<Seq<char>>, format: Format) -> Seq<CandidateView> {
    Seq::new(texts.len(), |i: int| CandidateView { text: texts[i], format })
}

/// The candidates that the matches of a format's pattern stand for. A match
/// is a candidate, except for a settings block, where each of its lines is.
pub open spec fn candidates(format: Format, matches: Seq<Seq<char>>) -> Seq<CandidateView> {
    match format {
        Format::JsonBlock => tagged(blocks_lines(matches), format),
        _ => tagged(matches, format),
    }
}

/// The candidates of `format` in a text, given what the pattern search
/// returned.
pub open spec fn found_candidates(format: Format, found: Option<Seq<Seq<char>>>) -> Option<
    Seq<CandidateView>,
> {
    match found {
        Some(matches) => Some(candidates(format, matches)),
        None => None,
    }
}

/// The non-blank lines of two lists of lines, one after the other, are
/// those of the first followed by those of the second.
pub proof fn lemma_nonblank_join(first: Seq<Seq<char>>, second: Seq<Seq<char>>)
    ensures
        nonblank(first + second) == nonblank(first) + nonblank(second),
    decreases first.len(),
{
    if first.len() == 0 {
        assert(first + second =~= second);
        assert(nonblank(first) + nonblank(second) =~= nonblank(second));
    } else {
        let rest = first.drop_first();
        lemma_nonblank_join(rest, second);
        assert((first + second).first() == first.first());
        assert((first + second).drop_first() =~= rest + second);
        assert(seq![first.first()] + (nonblank(rest) + nonblank(second)) =~= (seq![first.first()]
            + nonblank(rest)) + nonblank(second));
    }
}

/// The candidate lines of two texts joined by a line break are those of the
/// first followed by those of the second.
pub proof fn lemma_lines_join(first: Seq<char>, second: Seq<char>)
    ensures
        block_lines(first + seq!['\n'] + second) == block_lines(first) + block_lines(second),
        tagged(block_lines(first + seq!['\n'] + second), Format::JsonBlock) == tagged(
            block_lines(first),
            Format::JsonBlock,
        ) + tagged(block_lines(second), Format::JsonBlock),
{
    lemma_split_join(first, second, '\n');
    lemma_nonblank_join(split(first, '\n'), split(second, '\n'));
    assert(tagged(block_lines(first) + block_lines(second), Format::JsonBlock) =~= tagged(
        block_lines(first),
        Format::JsonBlock,
    ) + tagged(block_lines(second), Format::JsonBlock));
}

/// A text without line break is its own only candidate line where it holds
/// more than white space, and has none where it does not.
pub proof fn lemma_lines_of_one_line(line: Seq<char>)
    requires
        forall|i: int| 0 <= i < line.len() ==> line[i] != '\n',
    ensures
        block_lines(line) == if trim(line).len() > 0 {
            seq![line]
        } else {
            Seq::empty()
        },
{
    lemma_split_one(line, '\n');
    let all = seq![line];
    assert(all.drop_first() =~= Seq::<Seq<char>>::empty());
    assert(nonblank(all.drop_first()) =~= Seq::<Seq<char>>::empty());
    assert(seq![line] + Seq::<Seq<char>>::empty() =~= seq![line]);
}

/// The candidate lines of a text are its first line, where it is not blank,
/// followed by the candidate lines of what stands behind the first line
/// break.
pub proof fn lemma_lines_unfold(text: Seq<char>)
    ensures
        ({
            let i = find_char(text, '\n');
            let head = if trim(text.subrange(0, i)).len() > 0 {
                seq![text.subrange(0, i)]
            } else {
                Seq::empty()
            };
            let tail = if i < text.len() {
                nonblank(split(text.subrange(i + 1, text.len() as int), '\n'))
            } else {
                Seq::empty()
            };
            nonblank(split(text, '\n')) == head + tail
        }),
{
    lemma_find_char(text, '\n');
    let i = find_char(text, '\n');
    let first = text.subrange(0, i);
    if i < text.len() {
        let others = split(text.subrange(i + 1, text.len() as int), '\n');
        let all = seq![first] + others;
        assert(all.first() == first);
        assert(all.drop_first() =~= others);
        assert(nonblank(others) =~= Seq::<Seq<char>>::empty() + nonblank(others));
    } else {
        assert(first =~= text);
        let all = seq![text];
        assert(all.drop_first() =~= Seq::<Seq<char>>::empty());
        assert(nonblank(all.drop_first()) =~= Seq::<Seq<char>>::empty());
        assert(seq![text] + Seq::<Seq<char>>::empty() =~= seq![text]);
    }
}

/// The non-blank lines of `text`, in order.
pub fn nonblank_lines(text: &[char]) -> (r: Vec<String>)
    ensures
        r.deep_view() == nonblank(split(text@, '\n')),
{
    let n = text.len();
    let mut out: Vec<String> = Vec::new();
    let mut pos: usize = 0;
    assert(text@.subrange(0, n as int) =~= text@);
    assert(out.deep_view() + nonblank(split(text@, '\n')) =~= nonblank(split(text@, '\n')));
    loop
        invariant
            n == text@.len(),
            pos <= n,
            nonblank(split(text@, '\n')) == out.deep_view() + nonblank(
                split(text@.subrange(pos as int, n as int), '\n'),
            ),
        decreases n - pos,
    {
        let ghost rest = text@.subrange(pos as int, n as int);
        let ghost done = out.deep_view();
        let end = find_from(text, pos, '\n');
        proof {
            lemma_lines_unfold(rest);
            assert(rest.subrange(0, end - pos) =~= text@.subrange(pos as int, end as int));
            if end < n {
                assert(rest.subrange(end - pos + 1, rest.len() as int) =~= text@.subrange(
                    end + 1,
                    n as int,
                ));
            }
        }
        let line = slice_subrange(text, pos, end);
        if trim_slice(line).len() > 0 {
            out.push(string_of(line));
            assert(out.deep_view() =~= done + seq![line@]);
        } else {
            assert(done + Seq::<Seq<char>>::empty() =~= done);
        }
        if end >= n {
            assert(out.deep_view() + Seq::<Seq<char>>::empty() =~= out.deep_view());
            return out;
        }
        assert(nonblank(split(text@, '\n')) =~= out.deep_view() + nonblank(
            split(text@.subrange(end + 1, n as int), '\n'),
        ));
        pos = end + 1;
    }
}

/// The candidate lines of one settings block: its non-blank lines, in
/// order.
pub fn lines_of_block(block: &str) -> (r: Vec<String>)
    ensures
        r.deep_view() == nonblank(split(block@, '\n')),
{
    nonblank_lines(chars_of(block).as_slice())
}

/// The candidates that the matches of the pattern of `format` stand for:
/// the matches themselves or, for settings blocks, their lines.
pub fn candidates_from_matches(format: Format, matches: &Vec<String>) -> (r: Vec<Candidate>)
    ensures
        r.deep_view() == candidates(format, matches.deep_view()),
{
    let mut out: Vec<Candidate> = Vec::new();
    let mut i: usize = 0;
    match format {
        Format::JsonBlock => {
            let mut lines: Vec<String> = Vec::new();
            assert(lines.deep_view() =~= Seq::<Seq<char>>::empty());
            assert(matches.deep_view().take(0) =~= Seq::<Seq<char>>::empty());
            while i < matches.len()
                invariant
                    i <= matches.len(),
                    lines.deep_view() == blocks_lines(matches.deep_view().take(i as int)),
                decreases matches.len() - i,
            {
                let ghost upto = matches.deep_view().take(i + 1);
                let ghost before = lines.deep_view();
                assert(upto.drop_last() =~= matches.deep_view().take(i as int));
                assert(upto.last() == matches[i as int]@);
                let mut more = lines_of_block(matches[i].as_str());
                let ghost added = more.deep_view();
                lines.append(&mut more);
                assert(lines.deep_view() =~= before + added);
                i += 1;
            }
            assert(matches.deep_view().take(matches.len() as int) =~= matches.deep_view());
            let mut k: usize = 0;
            while k < lines.len()
                invariant
                    k <= lines.len(),
                    out.deep_view() == tagged(lines.deep_view().take(k as int), format),
                decreases lines.len() - k,
            {
                let ghost before = out.deep_view();
                let c = Candidate { text: lines[k].clone(), format };
                out.push(c);
                assert(out.deep_view() =~= before.push(c@));
                assert(lines.deep_view().take(k + 1) =~= lines.deep_view().take(k as int).push(
                    lines[k as int]@,
                ));
                assert(out.deep_view() =~= tagged(lines.deep_view().take(k + 1), format));
                k += 1;
            }
            assert(lines.deep_view().take(lines.len() as int) =~= lines.deep_view());
        },
        _ => {
            while i < matches.len()
                invariant
                    i <= matches.len(),
                    out.deep_view() == tagged(matches.deep_view().take(i as int), format),
                decreases matches.len() - i,
            {
                let ghost before = out.deep_view();
                let c = Candidate { text: matches[i].clone(), format };
                out.push(c);
                assert(out.deep_view() =~= before.push(c@));
                assert(matches.deep_view().take(i + 1) =~= matches.deep_view().take(
                    i as int,
                ).push(matches[i as int]@));
                assert(out.deep_view() =~= tagged(matches.deep_view().take(i + 1), format));
                i += 1;
            }
            assert(matches.deep_view().take(matches.len() as int) =~= matches.deep_view());
        },
    }
    out
}

/// The candidates of `format` in `content`, in the order in which they stand
/// there: what [`candidates`] makes of the matches that the `regex` crate
/// returns for the pattern of the format. `None` where the crate does not
/// accept the pattern.
pub fn extract_candidates(content: &str, format: Format, lenient: bool) -> (r: Option<
    Vec<Candidate>,
>)
    ensures
        r.deep_view() == found_candidates(
            format,
            regex_matches(pattern(format, lenient), content@),
        ),
{
    match find_all(pattern_of(format, lenient), content) {
        Some(matches) => Some(candidates_from_matches(format, &matches)),
        None => None,
    }
}

} // verus!
