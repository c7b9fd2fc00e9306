//! Character-level primitives shared by the tokenizer, the extractors and the
//! resolver.
//!
//! Text is modelled as `Seq<char>`. Executable code works on `&[char]` and
//! converts at the public boundary with [`chars_of`] and [`string_of`].

use vstd::prelude::*;
use vstd::slice::slice_subrange;

verus! {

/// `String::push` appends exactly one character to the end of the string.
pub assume_specification[ String::push ](s: &mut String, c: char)
    ensures
        final(s)@ == old(s)@.push(c),
;

/// Whether `c` has the Unicode `White_Space` property.
pub open spec fn is_space(c: char) -> bool {
    let n = c as u32;
    ||| 0x09 <= n <= 0x0D
    ||| n == 0x20
    ||| n == 0x85
    ||| n == 0xA0
    ||| n == 0x1680
    ||| 0x2000 <= n <= 0x200A
    ||| n == 0x2028
    ||| n == 0x2029
    ||| n == 0x202F
    ||| n == 0x205F
    ||| n == 0x3000
}

/// The lower-case form of an ASCII capital; every other character is kept.
pub open spec fn lower(c: char) -> char {
    if 'A' <= c <= 'Z' {
        ((c as u8) + 32) as char
    } else {
        c
    }
}

/// `s` with every ASCII capital replaced by its lower-case form.
pub open spec fn fold(s: Seq<char>) -> Seq<char> {
    Seq::new(s.len(), |i: int| lower(s[i]))
}

/// `s` without its leading white space.
pub open spec fn trim_start(s: Seq<char>) -> Seq<char>
    decreases s.len(),
{
    if s.len() > 0 && is_space(s.first()) {
        trim_start(s.drop_first())
    } else {
        s
    }
}

/// `s` without its trailing white space.
pub open spec fn trim_end(s: Seq<char>) -> Seq<char>
    decreases s.len(),
{
    if s.len() > 0 && is_space(s.last()) {
        trim_end(s.drop_last())
    } else {
        s
    }
}

/// `s` without leading and trailing white space.
pub open spec fn trim(s: Seq<char>) -> Seq<char> {
    trim_end(trim_start(s))
}

/// `s` without one leading and one trailing double quote, where present.
pub open spec fn strip_quotes(s: Seq<char>) -> Seq<char> {
    let a = if s.len() > 0 && s.first() == '"' {
        s.drop_first()
    } else {
        s
    };
    if a.len() > 0 && a.last() == '"' {
        a.drop_last()
    } else {
        a
    }
}

/// A raw key or value made clean: white space trimmed, then one layer of
/// double quotes removed.
pub open spec fn clean(s: Seq<char>) -> Seq<char> {
    strip_quotes(trim(s))
}

/// Index of the first `c` in `s`, or `s.len()` where `s` holds none.
pub open spec fn find_char(s: Seq<char>, c: char) -> int
    decreases s.len(),
{
    if s.len() == 0 {
        0
    } else if s.first() == c {
        0
    } else {
        1 + find_char(s.drop_first(), c)
    }
}

/// The pieces of `s` between occurrences of `sep`, in order. A text without
/// `sep` is one piece; a trailing `sep` is followed by an empty piece.
pub open spec fn split(s: Seq<char>, sep: char) -> Seq<Seq<char>>
    decreases s.len(),
{
    let i = find_char(s, sep);
    if 0 <= i < s.len() {
        seq![s.subrange(0, i)] + split(s.subrange(i + 1, s.len() as int), sep)
    } else {
        seq![s]
    }
}

/// Whether `word` stands in `s` at index `i`, capitals of `s` folded.
pub open spec fn folded_at(s: Seq<char>, word: Seq<char>, i: int) -> bool {
    &&& 0 <= i
    &&& i + word.len() <= s.len()
    &&& fold(s.subrange(i, i + word.len())) == word
}

/// Whether `word` occurs somewhere in `s`, capitals of `s` folded.
pub open spec fn mentions(s: Seq<char>, word: Seq<char>) -> bool {
    exists|i: int| folded_at(s, word, i)
}

/// `find_char` returns the least index that holds `c`.
pub proof fn lemma_find_char(s: Seq<char>, c: char)
    ensures
        0 <= find_char(s, c) <= s.len(),
        forall|j: int| 0 <= j < find_char(s, c) ==> s[j] != c,
        find_char(s, c) < s.len() ==> s[find_char(s, c)] == c,
    decreases s.len(),
{
    if s.len() > 0 && s.first() != c {
        let t = s.drop_first();
        lemma_find_char(t, c);
        assert forall|j: int| 0 <= j < find_char(s, c) implies s[j] != c by {
            if j > 0 {
                assert(s[j] == t[j - 1]);
            }
        }
    }
}

/// An index that holds the first `c`, or the length where there is none, is
/// what `find_char` returns.
pub proof fn lemma_find_char_is(s: Seq<char>, c: char, r: int)
    requires
        0 <= r <= s.len(),
        forall|j: int| 0 <= j < r ==> s[j] != c,
        r < s.len() ==> s[r] == c,
    ensures
        find_char(s, c) == r,
{
    lemma_find_char(s, c);
}

/// The pieces of two texts joined by the separator are the pieces of the
/// first followed by the pieces of the second.
pub proof fn lemma_split_join(first: Seq<char>, second: Seq<char>, sep: char)
    ensures
        split(first + seq![sep] + second, sep) == split(first, sep) + split(second, sep),
    decreases first.len(),
{
    let whole = first + seq![sep] + second;
    let i = find_char(first, sep);
    lemma_find_char(first, sep);
    lemma_find_char_is(whole, sep, i);
    assert(whole.subrange(0, i) =~= first.subrange(0, i));
    if i < first.len() {
        let rest = first.subrange(i + 1, first.len() as int);
        assert(whole.subrange(i + 1, whole.len() as int) =~= rest + seq![sep] + second);
        lemma_split_join(rest, second, sep);
        assert(seq![first.subrange(0, i)] + (split(rest, sep) + split(second, sep)) =~= (seq![
            first.subrange(0, i),
        ] + split(rest, sep)) + split(second, sep));
    } else {
        assert(whole.subrange(i + 1, whole.len() as int) =~= second);
        assert(first.subrange(0, i) =~= first);
    }
}

/// A text without the separator is its own only piece.
pub proof fn lemma_split_one(text: Seq<char>, sep: char)
    requires
        forall|i: int| 0 <= i < text.len() ==> text[i] != sep,
    ensures
        split(text, sep) == seq![text],
{
    lemma_find_char_is(text, sep, text.len() as int);
}

/// `trim_start` drops a prefix of white space and leaves no white space in
/// front.
pub proof fn lemma_trim_start(s: Seq<char>)
    ensures
        trim_start(s).len() <= s.len(),
        trim_start(s) == s.subrange(s.len() - trim_start(s).len(), s.len() as int),
        forall|j: int| 0 <= j < s.len() - trim_start(s).len() ==> is_space(s[j]),
        trim_start(s).len() > 0 ==> !is_space(trim_start(s).first()),
    decreases s.len(),
{
    if s.len() > 0 && is_space(s.first()) {
        let t = s.drop_first();
        lemma_trim_start(t);
        let k = t.len() - trim_start(t).len();
        assert(t.subrange(k, t.len() as int) =~= s.subrange(k + 1, s.len() as int));
        assert forall|j: int| 0 <= j < s.len() - trim_start(s).len() implies is_space(s[j]) by {
            if j > 0 {
                assert(s[j] == t[j - 1]);
            }
        }
    } else {
        assert(s.subrange(0, s.len() as int) =~= s);
    }
}

/// `trim_end` drops a suffix of white space and leaves no white space at the
/// end.
pub proof fn lemma_trim_end(s: Seq<char>)
    ensures
        trim_end(s).len() <= s.len(),
        trim_end(s) == s.subrange(0, trim_end(s).len() as int),
        forall|j: int| trim_end(s).len() <= j < s.len() ==> is_space(s[j]),
        trim_end(s).len() > 0 ==> !is_space(trim_end(s).last()),
    decreases s.len(),
{
    if s.len() > 0 && is_space(s.last()) {
        let t = s.drop_last();
        lemma_trim_end(t);
        assert(t.subrange(0, trim_end(t).len() as int) =~= s.subrange(
            0,
            trim_end(t).len() as int,
        ));
        assert forall|j: int| trim_end(s).len() <= j < s.len() implies is_space(s[j]) by {
            if j < t.len() {
                assert(s[j] == t[j]);
            }
        }
    } else {
        assert(s.subrange(0, s.len() as int) =~= s);
    }
}

/// Trimming leaves a text without white space at either end as it is.
pub proof fn lemma_trim_fixed(s: Seq<char>)
    requires
        s.len() > 0 ==> !is_space(s.first()) && !is_space(s.last()),
    ensures
        trim(s) == s,
{
}

/// Trimming twice is trimming once.
pub proof fn lemma_trim_idempotent(s: Seq<char>)
    ensures
        trim(trim(s)) == trim(s),
{
    let a = trim_start(s);
    lemma_trim_start(s);
    lemma_trim_end(a);
    let t = trim_end(a);
    if t.len() > 0 {
        assert(t.first() == a.first());
    }
    lemma_trim_fixed(t);
}

/// Whether a word occurs in a text does not depend on what stands around the
/// text, as long as no character around it folds to a character of the
/// word.
pub proof fn lemma_mentions_inside(
    before: Seq<char>,
    text: Seq<char>,
    after: Seq<char>,
    word: Seq<char>,
)
    requires
        word.len() > 0,
        forall|i: int, j: int|
            0 <= i < before.len() && 0 <= j < word.len() ==> lower(before[i]) != word[j],
        forall|i: int, j: int|
            0 <= i < after.len() && 0 <= j < word.len() ==> lower(after[i]) != word[j],
    ensures
        mentions(before + text + after, word) == mentions(text, word),
{
    let whole = before + text + after;
    let n = word.len() as int;
    if mentions(text, word) {
        let i = choose|i: int| folded_at(text, word, i);
        assert(whole.subrange(before.len() + i, before.len() + i + n) =~= text.subrange(i, i + n));
        assert(folded_at(whole, word, before.len() + i));
    }
    if mentions(whole, word) {
        let i = choose|i: int| folded_at(whole, word, i);
        let part = whole.subrange(i, i + n);
        assert(fold(part) == word);
        if i < before.len() {
            assert(fold(part)[0] == lower(part[0]));
            assert(part[0] == before[i]);
            assert(false);
        }
        if i + n > before.len() + text.len() {
            assert(fold(part)[n - 1] == lower(part[n - 1]));
            assert(part[n - 1] == after[i + n - 1 - before.len() - text.len()]);
            assert(false);
        }
        let k = i - before.len();
        assert(text.subrange(k, k + n) =~= part);
        assert(folded_at(text, word, k));
    }
}

/// Executable form of [`is_space`].
pub fn is_space_char(c: char) -> (b: bool)
    ensures
        b == is_space(c),
{
    let n: u32 = c as u32;
    (0x09 <= n && n <= 0x0D) || n == 0x20 || n == 0x85 || n == 0xA0 || n == 0x1680 || (0x2000 <= n
        && n <= 0x200A) || n == 0x2028 || n == 0x2029 || n == 0x202F || n == 0x205F || n == 0x3000
}

/// Executable form of [`lower`].
pub fn lower_char(c: char) -> (r: char)
    ensures
        r == lower(c),
{
    if 'A' <= c && c <= 'Z' {
        ((c as u8) + 32) as char
    } else {
        c
    }
}

/// The characters of `s`, one element each.
pub fn chars_of(s: &str) -> (v: Vec<char>)
    ensures
        v@ == s@,
{
    let mut v: Vec<char> = Vec::new();
    for c in it: s.chars()
        invariant
            v@ == it.seq().take(it.index()),
            it.seq() == s@,
    {
        v.push(c);
    }
    v
}

/// A string made of the characters of `cs`.
pub fn string_of(cs: &[char]) -> (s: String)
    ensures
        s@ == cs@,
{
    let mut s = String::new();
    let mut i: usize = 0;
    while i < cs.len()
        invariant
            i <= cs.len(),
            s@ == cs@.take(i as int),
        decreases cs.len() - i,
    {
        s.push(cs[i]);
        i += 1;
    }
    s
}

/// Index of the first character at or after `start` that is no white
/// space, or the length of `s` where only white space follows.
pub(crate) fn skip_spaces(s: &[char], start: usize) -> (r: usize)
    requires
        start <= s@.len(),
    ensures
        start <= r <= s@.len(),
        s@.subrange(r as int, s@.len() as int) == trim_start(
            s@.subrange(start as int, s@.len() as int),
        ),
{
    let n = s.len();
    let mut i: usize = start;
    while i < n && is_space_char(s[i])
        invariant
            n == s@.len(),
            start <= i <= n,
            trim_start(s@.subrange(start as int, n as int)) == trim_start(
                s@.subrange(i as int, n as int),
            ),
        decreases n - i,
    {
        assert(s@.subrange(i as int, n as int).drop_first() =~= s@.subrange(i + 1, n as int));
        i += 1;
    }
    i
}

/// Executable form of [`trim_start`].
pub fn trim_start_slice(s: &[char]) -> (r: &[char])
    ensures
        r@ == trim_start(s@),
{
    assert(s@.subrange(0, s@.len() as int) =~= s@);
    let i = skip_spaces(s, 0);
    slice_subrange(s, i, s.len())
}

/// Executable form of [`trim_end`].
pub fn trim_end_slice(s: &[char]) -> (r: &[char])
    ensures
        r@ == trim_end(s@),
{
    let n = s.len();
    let mut j: usize = n;
    assert(s@.subrange(0, n as int) =~= s@);
    while j > 0 && is_space_char(s[j - 1])
        invariant
            n == s@.len(),
            j <= n,
            trim_end(s@) == trim_end(s@.subrange(0, j as int)),
        decreases j,
    {
        assert(s@.subrange(0, j as int).drop_last() =~= s@.subrange(0, j - 1));
        j -= 1;
    }
    slice_subrange(s, 0, j)
}

/// Executable form of [`trim`]: the part of `s` between its leading and its
/// trailing white space.
pub fn trim_slice(s: &[char]) -> (r: &[char])
    ensures
        r@ == trim(s@),
{
    trim_end_slice(trim_start_slice(s))
}

/// Executable form of [`strip_quotes`].
pub fn strip_quotes_slice(s: &[char]) -> (r: &[char])
    ensures
        r@ == strip_quotes(s@),
{
    let n = s.len();
    let i: usize = if n > 0 && s[0] == '"' {
        1
    } else {
        0
    };
    let j: usize = if n > i && s[n - 1] == '"' {
        n - 1
    } else {
        n
    };
    assert(s@.subrange(0, n as int) =~= s@);
    if i == 1 {
        assert(s@.drop_first() =~= s@.subrange(1, n as int));
        if j < n {
            assert(s@.drop_first().drop_last() =~= s@.subrange(1, n - 1));
        }
    } else if j < n {
        assert(s@.drop_last() =~= s@.subrange(0, n - 1));
    }
    slice_subrange(s, i, j)
}

/// Executable form of [`clean`].
pub fn clean_slice(s: &[char]) -> (r: &[char])
    ensures
        r@ == clean(s@),
{
    strip_quotes_slice(trim_slice(s))
}

/// Index of the first `c` at or after `start`, or the length of `s` where
/// none follows.
pub(crate) fn find_from(s: &[char], start: usize, c: char) -> (r: usize)
    requires
        start <= s@.len(),
    ensures
        start <= r <= s@.len(),
        r == start + find_char(s@.subrange(start as int, s@.len() as int), c),
{
    let n = s.len();
    let mut i: usize = start;
    while i < n && s[i] != c
        invariant
            n == s@.len(),
            start <= i <= n,
            forall|j: int| start <= j < i ==> s@[j] != c,
        decreases n - i,
    {
        i += 1;
    }
    proof {
        lemma_find_char_is(s@.subrange(start as int, n as int), c, i - start);
    }
    i
}

/// Whether the capitals-folded `s` equals `word`.
pub fn folded_eq(s: &[char], word: &[char]) -> (b: bool)
    ensures
        b == (fold(s@) == word@),
{
    if s.len() != word.len() {
        return false;
    }
    let n = s.len();
    let mut i: usize = 0;
    while i < n
        invariant
            n == s@.len(),
            n == word@.len(),
            i <= n,
            forall|j: int| 0 <= j < i ==> lower(s@[j]) == word@[j],
        decreases n - i,
    {
        if lower_char(s[i]) != word[i] {
            assert(fold(s@)[i as int] != word@[i as int]);
            return false;
        }
        i += 1;
    }
    assert(fold(s@) =~= word@);
    true
}

/// Executable form of [`mentions`].
pub fn mentions_word(s: &[char], word: &[char]) -> (b: bool)
    ensures
        b == mentions(s@, word@),
{
    let n = s.len();
    let m = word.len();
    if m > n {
        assert(forall|i: int| !folded_at(s@, word@, i));
        return false;
    }
    let last: usize = n - m;
    let mut i: usize = 0;
    loop
        invariant
            n == s@.len(),
            m == word@.len(),
            last == n - m,
            i <= last,
            forall|k: int| 0 <= k < i ==> !folded_at(s@, word@, k),
        decreases last - i,
    {
        if folded_eq(slice_subrange(s, i, i + m), word) {
            assert(folded_at(s@, word@, i as int));
            return true;
        }
        if i == last {
            assert(forall|k: int| !folded_at(s@, word@, k));
            return false;
        }
        i += 1;
    }
}

/// Whether two texts are the same.
pub fn same_text(a: &[char], b: &[char]) -> (r: bool)
    ensures
        r == (a@ == b@),
{
    if a.len() != b.len() {
        return false;
    }
    let n = a.len();
    let mut i: usize = 0;
    while i < n
        invariant
            n == a@.len(),
            n == b@.len(),
            i <= n,
            forall|j: int| 0 <= j < i ==> a@[j] == b@[j],
        decreases n - i,
    {
        if a[i] != b[i] {
            return false;
        }
        i += 1;
    }
    assert(a@ =~= b@);
    true
}

} // verus!
