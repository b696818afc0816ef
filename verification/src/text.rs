//! Text as sequences of characters: white space, words, lines, pieces and
//! prefixes, with the exact result of every operation as its contract.

use vstd::prelude::*;
use vstd::slice::slice_subrange;

verus! {

// ---------------------------------------------------------------------------
// Strings and character sequences
// ---------------------------------------------------------------------------

/// `String::push` of the standard library: it appends one character to the
/// end of the string and leaves what was there before.
pub assume_specification[ String::push ](s: &mut String, c: char)
    ensures
        final(s)@ == old(s)@.push(c),
;

/// The characters of an optional string.
pub open spec fn text_view(s: Option<String>) -> Option<Seq<char>> {
    match s {
        Some(s) => Some(s@),
        None => None,
    }
}

/// A copy of an optional string.
pub fn clone_text(s: &Option<String>) -> (copy: Option<String>)
    ensures
        copy == *s,
{
    match s {
        Some(s) => Some(s.clone()),
        None => None,
    }
}

/// The characters of a string, in order.
pub fn chars_of(s: &str) -> (chars: Vec<char>)
    ensures
        chars@ == s@,
{
    let mut chars: Vec<char> = Vec::new();
    let source = s.chars();
    for c in it: source
        invariant
            it.seq() == s@,
            chars@ == s@.take(it.index()),
    {
        chars.push(c);
        assert(s@.take(it.index() + 1) == s@.take(it.index()).push(c));
    }
    assert(s@.take(s@.len() as int) == s@);
    chars
}

/// Appends every character of `chars` to `out`.
pub fn push_chars(out: &mut String, chars: &[char])
    ensures
        final(out)@ == old(out)@ + chars@,
{
    let ghost before = out@;
    let mut i: usize = 0;
    assert(before + chars@.take(0) == before);
    while i < chars.len()
        invariant
            i <= chars@.len(),
            out@ == before + chars@.take(i as int),
        decreases chars@.len() - i,
    {
        out.push(chars[i]);
        assert(chars@.take(i + 1) == chars@.take(i as int).push(chars@[i as int]));
        assert((before + chars@.take(i as int)).push(chars@[i as int]) == before + chars@.take(
            i + 1,
        ));
        i = i + 1;
    }
    assert(chars@.take(chars@.len() as int) == chars@);
}

/// The string made of the given characters.
pub fn string_of(chars: &[char]) -> (s: String)
    ensures
        s@ == chars@,
{
    let mut s = String::new();
    push_chars(&mut s, chars);
    assert(Seq::<char>::empty() + chars@ == chars@);
    s
}

/// Two strings, one after the other.
pub fn concat(left: &str, right: &str) -> (s: String)
    ensures
        s@ == left@ + right@,
{
    let mut s = left.to_owned();
    s.append(right);
    s
}

/// Whether two character slices hold the same characters.
pub fn same_chars(a: &[char], b: &[char]) -> (same: bool)
    ensures
        same == (a@ == b@),
{
    if a.len() != b.len() {
        return false;
    }
    let mut i: usize = 0;
    while i < a.len()
        invariant
            i <= a@.len(),
            a@.len() == b@.len(),
            forall|j: int| 0 <= j < i ==> a@[j] == b@[j],
        decreases a@.len() - i,
    {
        if a[i] != b[i] {
            return false;
        }
        i = i + 1;
    }
    assert(a@ =~= b@);
    true
}

// ---------------------------------------------------------------------------
// Leading runs
// ---------------------------------------------------------------------------

/// How many leading elements of `s` satisfy `p`.
pub open spec fn span<T>(s: Seq<T>, p: spec_fn(T) -> bool) -> nat
    decreases s.len(),
{
    if s.len() > 0 && p(s[0]) {
        1 + span(s.skip(1), p)
    } else {
        0
    }
}

/// Every element but `c`.
pub open spec fn other_than<T>(c: T) -> spec_fn(T) -> bool {
    |x: T| x != c
}

/// The characters with Unicode's `White_Space` property.
pub open spec fn is_white_space(c: char) -> bool {
    ||| '\u{9}' <= c <= '\u{d}'
    ||| c == ' '
    ||| c == '\u{85}'
    ||| c == '\u{a0}'
    ||| c == '\u{1680}'
    ||| '\u{2000}' <= c <= '\u{200a}'
    ||| c == '\u{2028}'
    ||| c == '\u{2029}'
    ||| c == '\u{202f}'
    ||| c == '\u{205f}'
    ||| c == '\u{3000}'
}

/// `is_white_space` as a predicate value.
pub open spec fn white() -> spec_fn(char) -> bool {
    |c: char| is_white_space(c)
}

/// The opposite of `white`.
pub open spec fn not_white() -> spec_fn(char) -> bool {
    |c: char| !is_white_space(c)
}

/// A run is characterised by where it ends.
pub proof fn lemma_span<T>(s: Seq<T>, p: spec_fn(T) -> bool, n: nat)
    requires
        n <= s.len(),
        forall|i: int| 0 <= i < n ==> p(#[trigger] s[i]),
        n == s.len() || !p(s[n as int]),
    ensures
        span(s, p) == n,
    decreases n,
{
    if n > 0 {
        assert(p(s[0]));
        assert forall|i: int| 0 <= i < n - 1 implies p(#[trigger] s.skip(1)[i]) by {
            assert(s.skip(1)[i] == s[i + 1]);
        }
        lemma_span(s.skip(1), p, (n - 1) as nat);
    }
}

/// Where a run ends, and what stands inside it.
pub proof fn lemma_span_bounds<T>(s: Seq<T>, p: spec_fn(T) -> bool)
    ensures
        span(s, p) <= s.len(),
        forall|i: int| 0 <= i < span(s, p) ==> p(#[trigger] s[i]),
        span(s, p) < s.len() ==> !p(s[span(s, p) as int]),
    decreases s.len(),
{
    if s.len() > 0 && p(s[0]) {
        lemma_span_bounds(s.skip(1), p);
        assert forall|i: int| 0 <= i < span(s, p) implies p(#[trigger] s[i]) by {
            if i > 0 {
                assert(s.skip(1)[i - 1] == s[i]);
            }
        }
    }
}

/// Whether a character is white space.
pub fn white_space(c: char) -> (white: bool)
    ensures
        white == is_white_space(c),
{
    ('\u{9}' <= c && c <= '\u{d}') || c == ' ' || c == '\u{85}' || c == '\u{a0}' || c == '\u{1680}'
        || ('\u{2000}' <= c && c <= '\u{200a}') || c == '\u{2028}' || c == '\u{2029}' || c
        == '\u{202f}' || c == '\u{205f}' || c == '\u{3000}'
}

/// The index of the first `c` in `s`, or the length of `s`.
pub fn index_of(s: &[char], c: char) -> (n: usize)
    ensures
        n == span(s@, other_than(c)),
        n <= s@.len(),
{
    let mut n: usize = 0;
    while n < s.len() && s[n] != c
        invariant
            n <= s@.len(),
            forall|i: int| 0 <= i < n ==> s@[i] != c,
        decreases s@.len() - n,
    {
        n = n + 1;
    }
    proof {
        lemma_span(s@, other_than(c), n as nat);
    }
    n
}

/// The length of the white space that `s` begins with.
pub fn leading_white(s: &[char]) -> (n: usize)
    ensures
        n == span(s@, white()),
        n <= s@.len(),
{
    let mut n: usize = 0;
    while n < s.len() && white_space(s[n])
        invariant
            n <= s@.len(),
            forall|i: int| 0 <= i < n ==> is_white_space(#[trigger] s@[i]),
        decreases s@.len() - n,
    {
        n = n + 1;
    }
    proof {
        lemma_span(s@, white(), n as nat);
    }
    n
}

/// The length of the word that `s` begins with.
pub fn leading_word(s: &[char]) -> (n: usize)
    ensures
        n == span(s@, not_white()),
        n <= s@.len(),
{
    let mut n: usize = 0;
    while n < s.len() && !white_space(s[n])
        invariant
            n <= s@.len(),
            forall|i: int| 0 <= i < n ==> !is_white_space(#[trigger] s@[i]),
        decreases s@.len() - n,
    {
        n = n + 1;
    }
    proof {
        lemma_span(s@, not_white(), n as nat);
    }
    n
}

// ---------------------------------------------------------------------------
// Trimming
// ---------------------------------------------------------------------------

/// `s` without the white space it begins with.
pub open spec fn trim_start(s: Seq<char>) -> Seq<char> {
    s.skip(span(s, white()) as int)
}

/// `s` without the white space it ends with.
pub open spec fn trim_end(s: Seq<char>) -> Seq<char>
    decreases s.len(),
{
    if s.len() > 0 && is_white_space(s.last()) {
        trim_end(s.drop_last())
    } else {
        s
    }
}

/// `s` without the white space at either end.
pub open spec fn trimmed(s: Seq<char>) -> Seq<char> {
    trim_end(trim_start(s))
}

proof fn lemma_trim_end(s: Seq<char>, n: int)
    requires
        0 <= n <= s.len(),
        forall|i: int| n <= i < s.len() ==> is_white_space(#[trigger] s[i]),
        n == 0 || !is_white_space(s[n - 1]),
    ensures
        trim_end(s) == s.take(n),
    decreases s.len(),
{
    if n < s.len() {
        assert(is_white_space(s[s.len() - 1]));
        lemma_trim_end(s.drop_last(), n);
        assert(s.drop_last().take(n) == s.take(n));
    } else {
        assert(s.take(n) == s);
    }
}

/// The part of `s` between the white space at its ends.
pub fn trim(s: &[char]) -> (t: &[char])
    ensures
        t@ == trimmed(s@),
{
    let start: usize = leading_white(s);
    let rest = slice_subrange(s, start, s.len());
    assert(rest@ == trim_start(s@));
    let mut end: usize = rest.len();
    while end > 0 && white_space(rest[end - 1])
        invariant
            end <= rest@.len(),
            forall|i: int| end <= i < rest@.len() ==> is_white_space(#[trigger] rest@[i]),
        decreases end,
    {
        end = end - 1;
    }
    proof {
        lemma_trim_end(rest@, end as int);
        assert(rest@.subrange(0, end as int) == rest@.take(end as int));
    }
    slice_subrange(rest, 0, end)
}

// ---------------------------------------------------------------------------
// Words, pieces and lines
// ---------------------------------------------------------------------------

/// The sequences that a sequence of slices stands for.
pub open spec fn views<T>(v: Seq<&[T]>) -> Seq<Seq<T>> {
    Seq::new(v.len(), |i: int| v[i]@)
}

/// The words of `s`: its longest runs without white space, in order.
pub open spec fn words(s: Seq<char>) -> Seq<Seq<char>>
    decreases s.len(),
{
    let t = trim_start(s);
    let n = span(t, not_white()) as int;
    if n == 0 {
        seq![]
    } else {
        proof {
            lemma_span_bounds(s, white());
            lemma_span_bounds(t, not_white());
        }
        seq![t.take(n)] + words(t.skip(n))
    }
}

/// What stands between the separators `c` of `s`, empty pieces as well.
pub open spec fn pieces<T>(s: Seq<T>, c: T) -> Seq<Seq<T>>
    decreases s.len(),
{
    let n = span(s, other_than(c)) as int;
    if n < s.len() {
        seq![s.take(n)] + pieces(s.skip(n + 1), c)
    } else {
        seq![s]
    }
}

/// A line without the carriage return that may end it.
pub open spec fn without_return(s: Seq<char>) -> Seq<char> {
    if s.len() > 0 && s.last() == '\r' {
        s.drop_last()
    } else {
        s
    }
}

/// The lines of `s`. A line ends in a line feed, which a carriage return may
/// precede; neither belongs to the line. The last line need not be ended.
pub open spec fn lines(s: Seq<char>) -> Seq<Seq<char>>
    decreases s.len(),
{
    let n = span(s, other_than('\n')) as int;
    if s.len() == 0 {
        seq![]
    } else if n < s.len() {
        seq![without_return(s.take(n))] + lines(s.skip(n + 1))
    } else {
        seq![s]
    }
}

/// `s` cut at its first `c`, which belongs to neither part.
pub open spec fn split_once(s: Seq<char>, c: char) -> Option<(Seq<char>, Seq<char>)> {
    let n = span(s, other_than(c)) as int;
    if n < s.len() {
        Some((s.take(n), s.skip(n + 1)))
    } else {
        None
    }
}

/// The words of `s`.
pub fn split_words(s: &[char]) -> (found: Vec<&[char]>)
    ensures
        views(found@) == words(s@),
{
    let mut found: Vec<&[char]> = Vec::new();
    let mut rest = s;
    loop
        invariant_except_break
            views(found@) + words(rest@) == words(s@),
        ensures
            views(found@) == words(s@),
        decreases rest@.len(),
    {
        let start: usize = leading_white(rest);
        let text = slice_subrange(rest, start, rest.len());
        assert(text@ == trim_start(rest@));
        let n: usize = leading_word(text);
        if n == 0 {
            assert(views(found@) + words(rest@) == views(found@));
            break;
        }
        let word = slice_subrange(text, 0, n);
        let after = slice_subrange(text, n, text.len());
        let ghost before = views(found@);
        found.push(word);
        proof {
            assert(word@ == text@.take(n as int));
            assert(after@ == text@.skip(n as int));
            assert(views(found@) == before.push(word@));
            assert(before + (seq![word@] + words(after@)) == before.push(word@) + words(after@));
        }
        rest = after;
    }
    found
}

/// The pieces of `s` between the characters `c`.
pub fn split_chars(s: &[char], c: char) -> (found: Vec<&[char]>)
    ensures
        views(found@) == pieces(s@, c),
{
    let mut found: Vec<&[char]> = Vec::new();
    let mut rest = s;
    loop
        invariant_except_break
            views(found@) + pieces(rest@, c) == pieces(s@, c),
        ensures
            views(found@) == pieces(s@, c),
        decreases rest@.len(),
    {
        let n: usize = index_of(rest, c);
        let ghost before = views(found@);
        if n == rest.len() {
            found.push(rest);
            assert(views(found@) == before + seq![rest@]);
            break;
        }
        let piece = slice_subrange(rest, 0, n);
        let after = slice_subrange(rest, n + 1, rest.len());
        found.push(piece);
        proof {
            assert(piece@ == rest@.take(n as int));
            assert(after@ == rest@.skip(n + 1));
            assert(views(found@) == before.push(piece@));
            assert(before + (seq![piece@] + pieces(after@, c)) == before.push(piece@) + pieces(
                after@,
                c,
            ));
        }
        rest = after;
    }
    found
}

/// The pieces of `s` between the bytes `b`.
pub fn split_bytes(s: &[u8], b: u8) -> (found: Vec<&[u8]>)
    ensures
        views(found@) == pieces(s@, b),
{
    let mut found: Vec<&[u8]> = Vec::new();
    let mut rest = s;
    loop
        invariant_except_break
            views(found@) + pieces(rest@, b) == pieces(s@, b),
        ensures
            views(found@) == pieces(s@, b),
        decreases rest@.len(),
    {
        let mut n: usize = 0;
        while n < rest.len() && rest[n] != b
            invariant
                n <= rest@.len(),
                forall|i: int| 0 <= i < n ==> rest@[i] != b,
            decreases rest@.len() - n,
        {
            n = n + 1;
        }
        proof {
            lemma_span(rest@, other_than(b), n as nat);
        }
        let ghost before = views(found@);
        if n == rest.len() {
            found.push(rest);
            assert(views(found@) == before + seq![rest@]);
            break;
        }
        let piece = slice_subrange(rest, 0, n);
        let after = slice_subrange(rest, n + 1, rest.len());
        found.push(piece);
        proof {
            assert(piece@ == rest@.take(n as int));
            assert(after@ == rest@.skip(n + 1));
            assert(views(found@) == before.push(piece@));
            assert(before + (seq![piece@] + pieces(after@, b)) == before.push(piece@) + pieces(
                after@,
                b,
            ));
        }
        rest = after;
    }
    found
}

/// No piece holds the separator.
pub proof fn lemma_pieces_are_separated<T>(s: Seq<T>, c: T, i: int)
    requires
        0 <= i < pieces(s, c).len(),
    ensures
        !pieces(s, c)[i].contains(c),
    decreases s.len(),
{
    let n = span(s, other_than(c)) as int;
    lemma_span_bounds(s, other_than(c));
    assert forall|j: int| 0 <= j < n implies #[trigger] s[j] != c by {
        assert(other_than(c)(s[j]));
    }
    if n < s.len() && i > 0 {
        lemma_pieces_are_separated(s.skip(n + 1), c, i - 1);
    }
}

/// The lines of `s`.
pub fn split_lines(s: &[char]) -> (found: Vec<&[char]>)
    ensures
        views(found@) == lines(s@),
{
    let mut found: Vec<&[char]> = Vec::new();
    let mut rest = s;
    loop
        invariant_except_break
            views(found@) + lines(rest@) == lines(s@),
        ensures
            views(found@) == lines(s@),
        decreases rest@.len(),
    {
        let n: usize = index_of(rest, '\n');
        let ghost before = views(found@);
        if rest.len() == 0 {
            assert(before + lines(rest@) == before);
            break;
        }
        if n == rest.len() {
            found.push(rest);
            assert(views(found@) == before + seq![rest@]);
            break;
        }
        let mut end: usize = n;
        if n > 0 && rest[n - 1] == '\r' {
            end = n - 1;
        }
        let line = slice_subrange(rest, 0, end);
        let after = slice_subrange(rest, n + 1, rest.len());
        found.push(line);
        proof {
            assert(line@ == without_return(rest@.take(n as int)));
            assert(after@ == rest@.skip(n + 1));
            assert(views(found@) == before.push(line@));
            assert(before + (seq![line@] + lines(after@)) == before.push(line@) + lines(after@));
        }
        rest = after;
    }
    found
}

/// `s` cut at its first `c`.
pub fn cut_once<'a>(s: &'a [char], c: char) -> (cut: Option<(&'a [char], &'a [char])>)
    ensures
        match cut {
            Some((left, right)) => split_once(s@, c) == Some((left@, right@)),
            None => split_once(s@, c) is None,
        },
{
    let n: usize = index_of(s, c);
    if n < s.len() {
        let left = slice_subrange(s, 0, n);
        let right = slice_subrange(s, n + 1, s.len());
        assert(left@ == s@.take(n as int));
        assert(right@ == s@.skip(n + 1));
        Some((left, right))
    } else {
        None
    }
}

/// The sequences `parts` with `c` between them.
pub open spec fn joined(parts: Seq<Seq<char>>, c: char) -> Seq<char>
    decreases parts.len(),
{
    if parts.len() == 0 {
        seq![]
    } else if parts.len() == 1 {
        parts[0]
    } else {
        joined(parts.drop_last(), c).push(c) + parts.last()
    }
}

/// The slices from index `from` on, with `c` between them.
pub fn join_from(parts: &Vec<&[char]>, from: usize, c: char) -> (s: String)
    requires
        from <= parts@.len(),
    ensures
        s@ == joined(views(parts@).skip(from as int), c),
{
    let ghost all = views(parts@).skip(from as int);
    let mut s = String::new();
    let mut i: usize = from;
    while i < parts.len()
        invariant
            from <= i <= parts@.len(),
            all == views(parts@).skip(from as int),
            s@ == joined(all.take(i - from), c),
        decreases parts@.len() - i,
    {
        if i > from {
            s.push(c);
        }
        push_chars(&mut s, parts[i]);
        proof {
            let next = all.take(i + 1 - from);
            assert(next.drop_last() == all.take(i - from));
            assert(next.last() == parts@[i as int]@);
            assert(Seq::<char>::empty() + next.last() == next.last());
        }
        i = i + 1;
    }
    assert(all.take(all.len() as int) == all);
    s
}

/// Whether `s` is a word: it is not empty and holds no white space.
pub open spec fn is_word(s: Seq<char>) -> bool {
    s.len() > 0 && forall|i: int| 0 <= i < s.len() ==> !is_white_space(#[trigger] s[i])
}

proof fn lemma_joined_first(parts: Seq<Seq<char>>, c: char)
    requires
        parts.len() > 1,
    ensures
        joined(parts, c) == parts[0] + seq![c] + joined(parts.skip(1), c),
    decreases parts.len(),
{
    let most = parts.drop_last();
    let rest = parts.skip(1);
    if parts.len() == 2 {
        assert(joined(most, c) == parts[0]);
        assert(joined(rest, c) == parts[1]);
        assert(parts[0].push(c) + parts[1] =~= parts[0] + seq![c] + parts[1]);
    } else {
        lemma_joined_first(most, c);
        assert(most.skip(1) =~= rest.drop_last());
        let middle = joined(rest.drop_last(), c);
        assert((parts[0] + seq![c] + middle).push(c) + parts.last() =~= parts[0] + seq![c] + (
        middle.push(c) + parts.last()));
    }
}

/// The words of a text are the words that it was put together from.
pub proof fn law_words_of_joined(parts: Seq<Seq<char>>)
    requires
        forall|i: int| 0 <= i < parts.len() ==> is_word(#[trigger] parts[i]),
    ensures
        words(joined(parts, ' ')) == parts,
    decreases parts.len(),
{
    let s = joined(parts, ' ');
    if parts.len() == 0 {
        lemma_span(s, white(), 0);
        assert(trim_start(s) =~= s);
        lemma_span(s, not_white(), 0);
        assert(words(s) =~= parts);
    } else {
        let first = parts[0];
        let n = first.len();
        assert(is_word(first));
        if parts.len() > 1 {
            lemma_joined_first(parts, ' ');
        }
        assert forall|i: int| 0 <= i < n implies s[i] == first[i] by {}
        assert(!is_white_space(s[0]));
        lemma_span(s, white(), 0);
        assert(trim_start(s) =~= s);
        lemma_span(s, not_white(), n);
        assert(s.take(n as int) =~= first);
        if parts.len() == 1 {
            assert(s.skip(n as int) =~= joined(seq![], ' '));
            law_words_of_joined(seq![]);
            assert(seq![first] + seq![] =~= parts);
        } else {
            let rest = joined(parts.skip(1), ' ');
            assert(s.skip(n as int) =~= seq![' '] + rest);
            assert forall|i: int| 0 <= i < parts.skip(1).len() implies is_word(
                #[trigger] parts.skip(1)[i],
            ) by {
                assert(parts.skip(1)[i] == parts[i + 1]);
            }
            law_words_of_joined(parts.skip(1));
            lemma_blank_before(seq![' '], rest);
            assert(seq![first] + parts.skip(1) =~= parts);
        }
    }
}

// ---------------------------------------------------------------------------
// Prefixes, suffixes and substrings
// ---------------------------------------------------------------------------

/// `s` without the prefix `p`, if it has it.
pub open spec fn strip_prefix(s: Seq<char>, p: Seq<char>) -> Option<Seq<char>> {
    if p.is_prefix_of(s) {
        Some(s.skip(p.len() as int))
    } else {
        None
    }
}

/// Whether `needle` occurs in `s`.
pub open spec fn contains_text(s: Seq<char>, needle: Seq<char>) -> bool {
    exists|i: int|
        0 <= i <= s.len() - needle.len() && #[trigger] s.subrange(i, i + needle.len()) == needle
}

/// `s` without the prefix `p`, if it has it.
pub fn after_prefix<'a>(s: &'a [char], p: &[char]) -> (rest: Option<&'a [char]>)
    ensures
        match rest {
            Some(rest) => strip_prefix(s@, p@) == Some(rest@),
            None => strip_prefix(s@, p@) is None,
        },
{
    if s.len() < p.len() {
        return None;
    }
    let head = slice_subrange(s, 0, p.len());
    assert(head@ == s@.take(p@.len() as int));
    if same_chars(head, p) {
        let rest = slice_subrange(s, p.len(), s.len());
        assert(rest@ == s@.skip(p@.len() as int));
        Some(rest)
    } else {
        None
    }
}

/// Whether `s` ends in `p`.
pub fn has_suffix(s: &[char], p: &[char]) -> (has: bool)
    ensures
        has == p@.is_suffix_of(s@),
{
    if s.len() < p.len() {
        return false;
    }
    let tail = slice_subrange(s, s.len() - p.len(), s.len());
    same_chars(tail, p)
}

/// Whether `needle` occurs in `s`.
pub fn has_text(s: &[char], needle: &[char]) -> (has: bool)
    ensures
        has == contains_text(s@, needle@),
{
    if s.len() < needle.len() {
        return false;
    }
    let total: usize = s.len();
    let size: usize = needle.len();
    let mut i: usize = 0;
    while i <= total - size
        invariant
            size <= total,
            total == s@.len(),
            size == needle@.len(),
            i <= total - size + 1,
            forall|j: int| 0 <= j < i ==> #[trigger] s@.subrange(j, j + size) != needle@,
        decreases total - size + 1 - i,
    {
        let window = slice_subrange(s, i, i + size);
        if same_chars(window, needle) {
            assert(s@.subrange(i as int, i + size) == needle@);
            return true;
        }
        if i == total - size {
            return false;
        }
        i = i + 1;
    }
    false
}

// ---------------------------------------------------------------------------
// Letter case
// ---------------------------------------------------------------------------

/// The lower-case letter for an upper-case letter of ASCII, and any other
/// character itself.
pub open spec fn lower_char(c: char) -> char {
    if 'A' <= c <= 'Z' {
        ((c as u32) + 32) as char
    } else {
        c
    }
}

/// `s` with the upper-case letters of ASCII made lower-case.
pub open spec fn lower(s: Seq<char>) -> Seq<char> {
    s.map_values(|c: char| lower_char(c))
}

/// The lower-case form of one character.
pub fn to_lower_char(c: char) -> (l: char)
    ensures
        l == lower_char(c),
{
    if 'A' <= c && c <= 'Z' {
        ((c as u8) + 32) as char
    } else {
        c
    }
}

/// The lower-case form of `s`.
pub fn to_lower(s: &[char]) -> (l: Vec<char>)
    ensures
        l@ == lower(s@),
{
    let mut l: Vec<char> = Vec::new();
    let mut i: usize = 0;
    while i < s.len()
        invariant
            i <= s@.len(),
            l@ == lower(s@.take(i as int)),
        decreases s@.len() - i,
    {
        l.push(to_lower_char(s[i]));
        assert(lower(s@.take(i + 1)) == lower(s@.take(i as int)).push(lower_char(s@[i as int])));
        i = i + 1;
    }
    assert(s@.take(s@.len() as int) == s@);
    l
}

// ---------------------------------------------------------------------------
// Path names
// ---------------------------------------------------------------------------

/// Whether a piece of a path names something: it is neither empty nor `.`.
pub open spec fn is_name(piece: Seq<char>) -> bool {
    piece.len() > 0 && piece != seq!['.']
}

/// The final component of a path whose components are separated by `/`, if
/// there is one and it is not `..`.
pub open spec fn file_name(path: Seq<char>) -> Option<Seq<char>> {
    let names = pieces(path, '/').filter(|piece: Seq<char>| is_name(piece));
    if names.len() > 0 && names.last() != seq!['.', '.'] {
        Some(names.last())
    } else {
        None
    }
}

/// The final component of `path`.
pub fn last_component(path: &[char]) -> (name: Option<&[char]>)
    ensures
        match name {
            Some(name) => file_name(path@) == Some(name@),
            None => file_name(path@) is None,
        },
{
    let found = split_chars(path, '/');
    let ghost all = views(found@);
    let ghost named = |piece: Seq<char>| is_name(piece);
    let mut last: Option<&[char]> = None;
    let mut i: usize = 0;
    while i < found.len()
        invariant
            i <= found@.len(),
            all == views(found@),
            named == (|piece: Seq<char>| is_name(piece)),
            match last {
                Some(name) => all.take(i as int).filter(named).len() > 0 && all.take(
                    i as int,
                ).filter(named).last() == name@,
                None => all.take(i as int).filter(named).len() == 0,
            },
        decreases found@.len() - i,
    {
        let piece = found[i];
        if piece.len() > 0 && !(piece.len() == 1 && piece[0] == '.') {
            last = Some(piece);
        }
        proof {
            assert(piece@.len() == 1 && piece@[0] == '.' ==> piece@ =~= seq!['.']);
            assert(all.take(i + 1).drop_last() == all.take(i as int));
            assert(all.take(i + 1).last() == piece@);
            reveal(Seq::filter);
        }
        i = i + 1;
    }
    assert(all.take(all.len() as int) == all);
    match last {
        Some(name) => {
            if name.len() == 2 && name[0] == '.' && name[1] == '.' {
                assert(name@ =~= seq!['.', '.']);
                None
            } else {
                Some(name)
            }
        },
        None => None,
    }
}

// ---------------------------------------------------------------------------
// Laws
// ---------------------------------------------------------------------------

/// Whether `s` is made of white space alone.
pub open spec fn is_blank(s: Seq<char>) -> bool {
    forall|i: int| 0 <= i < s.len() ==> is_white_space(#[trigger] s[i])
}

/// The characters of white space, one by one.
pub proof fn law_white_space(c: char)
    ensures
        is_white_space(c) <==> {
            ||| c == '\t' || c == '\n' || c == '\u{b}' || c == '\u{c}' || c == '\r' || c == ' '
            ||| c == '\u{85}' || c == '\u{a0}' || c == '\u{1680}' || c == '\u{2000}'
            ||| c == '\u{2001}' || c == '\u{2002}' || c == '\u{2003}' || c == '\u{2004}'
            ||| c == '\u{2005}' || c == '\u{2006}' || c == '\u{2007}' || c == '\u{2008}'
            ||| c == '\u{2009}' || c == '\u{200a}' || c == '\u{2028}' || c == '\u{2029}'
            ||| c == '\u{202f}' || c == '\u{205f}' || c == '\u{3000}'
        },
{
}

/// Trimming takes away the white space at either end, all of it and nothing
/// else, whatever stands in between.
pub proof fn law_trimmed(before: Seq<char>, s: Seq<char>, after: Seq<char>)
    requires
        is_blank(before),
        is_blank(after),
        s.len() > 0 ==> !is_white_space(s[0]) && !is_white_space(s[s.len() - 1]),
    ensures
        trimmed(before + s + after) == s,
{
    let all = before + s + after;
    if s.len() > 0 {
        assert forall|i: int| 0 <= i < before.len() implies white()(#[trigger] all[i]) by {
            assert(all[i] == before[i]);
        }
        assert(all[before.len() as int] == s[0]);
        lemma_span(all, white(), before.len());
        let rest = trim_start(all);
        assert(rest =~= s + after);
        assert forall|i: int| s.len() <= i < rest.len() implies is_white_space(
            #[trigger] rest[i],
        ) by {
            assert(rest[i] == after[i - s.len()]);
        }
        lemma_trim_end(rest, s.len() as int);
        assert(rest.take(s.len() as int) =~= s);
    } else {
        assert forall|i: int| 0 <= i < all.len() implies white()(#[trigger] all[i]) by {
            if i < before.len() {
                assert(all[i] == before[i]);
            } else {
                assert(all[i] == after[i - before.len()]);
            }
        }
        lemma_span(all, white(), all.len());
        assert(trim_start(all) =~= s);
    }
}

proof fn lemma_blank_before(blank: Seq<char>, s: Seq<char>)
    requires
        is_blank(blank),
    ensures
        trim_start(blank + s) == trim_start(s),
        words(blank + s) == words(s),
{
    let t = blank + s;
    let n = span(s, white());
    lemma_span_bounds(s, white());
    assert forall|i: int| 0 <= i < blank.len() + n implies white()(#[trigger] t[i]) by {
        if i < blank.len() {
            assert(t[i] == blank[i]);
        } else {
            assert(t[i] == s[i - blank.len()]);
        }
    }
    if n < s.len() {
        assert(t[(blank.len() + n) as int] == s[n as int]);
    }
    lemma_span(t, white(), blank.len() + n);
    assert(trim_start(t) =~= trim_start(s));
}

/// White space anywhere parts words, however much of it there is, and nothing
/// else does.
pub proof fn law_words(a: Seq<char>, blank: Seq<char>, b: Seq<char>)
    requires
        is_blank(blank),
        blank.len() > 0,
    ensures
        is_blank(a) ==> words(a) == Seq::<Seq<char>>::empty(),
        is_word(a) ==> words(a) == seq![a],
        words(a + blank + b) == words(a) + words(b),
    decreases a.len(),
{
    let none = Seq::<char>::empty();
    assert(words(none) =~= seq![]) by {
        lemma_span_bounds(none, white());
        lemma_span_bounds(trim_start(none), not_white());
    }
    if is_blank(a) {
        lemma_blank_before(a, none);
        assert(a + none =~= a);
    }
    let all = a + blank + b;
    lemma_span_bounds(a, white());
    let t = trim_start(a);
    lemma_span_bounds(t, not_white());
    let n = span(t, not_white()) as int;
    if n == 0 {
        assert(t.len() == 0) by {
            if t.len() > 0 {
                assert(t[0] == a[span(a, white()) as int]);
            }
        }
        assert forall|i: int| 0 <= i < (a + blank).len() implies is_white_space(
            #[trigger] (a + blank)[i],
        ) by {
            if i < a.len() {
                assert(white()(a[i]));
            } else {
                assert((a + blank)[i] == blank[i - a.len()]);
            }
        }
        lemma_blank_before(a + blank, b);
        assert(words(a) + words(b) =~= words(b));
    } else {
        let lead = a.take(span(a, white()) as int);
        assert forall|i: int| 0 <= i < lead.len() implies is_white_space(#[trigger] lead[i]) by {
            assert(white()(a[i]));
        }
        let u = t + blank + b;
        assert(all =~= lead + u);
        lemma_blank_before(lead, u);
        assert(u[0] == t[0]);
        assert(not_white()(t[0]));
        lemma_span(u, white(), 0);
        assert(trim_start(u) =~= u);
        assert forall|i: int| 0 <= i < n implies not_white()(#[trigger] u[i]) by {
            assert(u[i] == t[i]);
            assert(not_white()(t[i]));
        }
        if n < t.len() {
            assert(u[n] == t[n]);
        } else {
            assert(u[n] == blank[0]);
        }
        lemma_span(u, not_white(), n as nat);
        assert(u.take(n) =~= t.take(n));
        assert(u.skip(n) =~= t.skip(n) + blank + b);
        law_words(t.skip(n), blank, b);
        assert(seq![t.take(n)] + (words(t.skip(n)) + words(b)) =~= words(a) + words(b));
        if is_word(a) {
            assert(not_white()(a[0]));
            lemma_span(a, white(), 0);
            assert(t =~= a);
            assert forall|i: int| 0 <= i < a.len() implies not_white()(#[trigger] a[i]) by {}
            lemma_span(a, not_white(), a.len());
            assert(a.take(n) =~= a);
            assert(a.skip(n) =~= none);
            assert(words(a) =~= seq![a]);
        }
    }
}

proof fn lemma_run_without<T>(a: Seq<T>, c: T, b: Seq<T>)
    requires
        !a.contains(c),
    ensures
        span(a, other_than(c)) == a.len(),
        span(a + seq![c] + b, other_than(c)) == a.len(),
        (a + seq![c] + b).take(a.len() as int) == a,
        (a + seq![c] + b).skip(a.len() as int + 1) == b,
{
    let all = a + seq![c] + b;
    assert forall|i: int| 0 <= i < a.len() implies other_than(c)(#[trigger] a[i])
        && other_than(c)(all[i]) by {
        assert(a.contains(a[i]));
        assert(all[i] == a[i]);
    }
    assert forall|i: int| 0 <= i < a.len() implies other_than(c)(#[trigger] all[i]) by {
        assert(all[i] == a[i]);
        assert(other_than(c)(a[i]));
    }
    lemma_span(a, other_than(c), a.len());
    assert(all[a.len() as int] == c);
    lemma_span(all, other_than(c), a.len());
    assert(all.take(a.len() as int) =~= a);
    assert(all.skip(a.len() as int + 1) =~= b);
}

/// A separator ends the piece before it and begins another one; what holds no
/// separator is one piece.
pub proof fn law_pieces<T>(a: Seq<T>, c: T, b: Seq<T>)
    requires
        !a.contains(c),
    ensures
        pieces(a, c) == seq![a],
        pieces(a + seq![c] + b, c) == seq![a] + pieces(b, c),
{
    lemma_run_without(a, c, b);
}

/// A cut is made at the first separator, and only where there is one.
pub proof fn law_split_once(a: Seq<char>, c: char, b: Seq<char>)
    requires
        !a.contains(c),
    ensures
        split_once(a, c) is None,
        split_once(a + seq![c] + b, c) == Some((a, b)),
{
    lemma_run_without(a, c, b);
}

/// A line ends at its line feed, or at the carriage return and line feed that
/// end it; a text without a line feed is one line, unless it is empty.
pub proof fn law_lines(a: Seq<char>, b: Seq<char>)
    requires
        !a.contains('\n'),
    ensures
        lines(Seq::<char>::empty()) == Seq::<Seq<char>>::empty(),
        a.len() > 0 ==> lines(a) == seq![a],
        a.len() == 0 || a[a.len() - 1] != '\r' ==> lines(a + seq!['\n'] + b) == seq![a] + lines(b),
        lines(a + seq!['\r', '\n'] + b) == seq![a] + lines(b),
{
    lemma_run_without(a, '\n', b);
    let returned = a.push('\r');
    assert(!returned.contains('\n')) by {
        if returned.contains('\n') {
            let i = choose|i: int| 0 <= i < returned.len() && returned[i] == '\n';
            assert(a[i] == '\n');
            assert(a.contains('\n'));
        }
    }
    lemma_run_without(returned, '\n', b);
    assert(a + seq!['\r', '\n'] + b =~= returned + seq!['\n'] + b);
    assert(returned.drop_last() =~= a);
}

/// Parts are joined in order, with the separator between two and nowhere else.
pub proof fn law_joined(parts: Seq<Seq<char>>, part: Seq<char>, c: char)
    ensures
        joined(Seq::<Seq<char>>::empty(), c) == Seq::<char>::empty(),
        joined(seq![part], c) == part,
        parts.len() > 0 ==> joined(parts.push(part), c) == joined(parts, c) + seq![c] + part,
{
    assert(parts.push(part).drop_last() =~= parts);
    assert(joined(parts, c).push(c) + part =~= joined(parts, c) + seq![c] + part);
}

/// What is left without a prefix is what follows it, and only a text that
/// begins with the prefix has it.
pub proof fn law_strip_prefix(s: Seq<char>, p: Seq<char>, rest: Seq<char>)
    ensures
        strip_prefix(p + rest, p) == Some(rest),
        strip_prefix(s, p) == Some(rest) <==> s == p + rest,
{
    let whole = p + rest;
    assert(whole.subrange(0, p.len() as int) =~= p);
    assert(whole.skip(p.len() as int) =~= rest);
    if strip_prefix(s, p) == Some(rest) {
        assert(s =~= p + rest);
    }
}

/// A text occurs in another one exactly if that one is made of something, the
/// text, and something.
pub proof fn law_contains_text(s: Seq<char>, needle: Seq<char>)
    ensures
        contains_text(s, needle) <==> exists|a: Seq<char>, b: Seq<char>|
            s == #[trigger] (a + needle + b),
{
    if contains_text(s, needle) {
        let i = choose|i: int|
            0 <= i <= s.len() - needle.len() && #[trigger] s.subrange(i, i + needle.len())
                == needle;
        let a = s.take(i);
        let b = s.skip(i + needle.len());
        assert(s =~= a + s.subrange(i, i + needle.len()) + b);
        assert(s == a + needle + b);
    }
    if exists|a: Seq<char>, b: Seq<char>| s == #[trigger] (a + needle + b) {
        let (a, b) = choose|a: Seq<char>, b: Seq<char>| s == #[trigger] (a + needle + b);
        let i = a.len() as int;
        assert(s.subrange(i, i + needle.len()) =~= needle);
    }
}

/// Lower case changes the twenty-six upper-case letters into their lower-case
/// ones, each at its place, and leaves every other character.
pub proof fn law_lower(s: Seq<char>, i: int)
    requires
        0 <= i < s.len(),
    ensures
        lower(s).len() == s.len(),
        'A' <= s[i] <= 'Z' ==> lower(s)[i] as int - 'a' as int == s[i] as int - 'A' as int,
        !('A' <= s[i] <= 'Z') ==> lower(s)[i] == s[i],
{
}

proof fn lemma_names_of<T>(s: Seq<Seq<T>>, t: Seq<T>, p: spec_fn(Seq<T>) -> bool)
    ensures
        (s + seq![t]).filter(p) == if p(t) {
            s.filter(p).push(t)
        } else {
            s.filter(p)
        },
{
    assert(s + seq![t] =~= s.push(t));
    s.lemma_filter_push(t, p);
}

proof fn lemma_last_piece(dir: Seq<char>, name: Seq<char>)
    requires
        !name.contains('/'),
    ensures
        pieces(dir + seq!['/'] + name, '/') == pieces(dir, '/') + seq![name],
    decreases dir.len(),
{
    let all = dir + seq!['/'] + name;
    let n = span(dir, other_than('/')) as int;
    lemma_span_bounds(dir, other_than('/'));
    let first = dir.take(n);
    assert(!first.contains('/')) by {
        if first.contains('/') {
            let i = choose|i: int| 0 <= i < first.len() && first[i] == '/';
            assert(other_than('/')(dir[i]));
        }
    }
    if n < dir.len() {
        assert(!other_than('/')(dir[n]));
        let rest = dir.skip(n + 1);
        assert(dir =~= first + seq!['/'] + rest);
        assert(all =~= first + seq!['/'] + (rest + seq!['/'] + name));
        law_pieces(first, '/', rest);
        law_pieces(first, '/', rest + seq!['/'] + name);
        lemma_last_piece(rest, name);
        assert(seq![first] + (pieces(rest, '/') + seq![name]) =~= seq![first] + pieces(rest, '/')
            + seq![name]);
    } else {
        assert(first =~= dir);
        law_pieces(dir, '/', name);
        law_pieces(name, '/', seq![]);
    }
}

proof fn lemma_file_name_below(dir: Seq<char>, name: Seq<char>)
    requires
        !name.contains('/'),
    ensures
        file_name(dir + seq!['/'] + name) == if !is_name(name) {
            file_name(dir)
        } else if name == seq!['.', '.'] {
            None
        } else {
            Some(name)
        },
{
    lemma_last_piece(dir, name);
    lemma_names_of(pieces(dir, '/'), name, |piece: Seq<char>| is_name(piece));
}

proof fn lemma_file_name_alone(name: Seq<char>)
    requires
        !name.contains('/'),
    ensures
        file_name(name) == if !is_name(name) || name == seq!['.', '.'] {
            None
        } else {
            Some(name)
        },
{
    let named = |piece: Seq<char>| is_name(piece);
    let none = Seq::<Seq<char>>::empty();
    law_pieces(name, '/', seq![]);
    assert(none + seq![name] =~= seq![name]);
    lemma_names_of(none, name, named);
    assert(none.filter(named).len() == 0) by {
        reveal(Seq::filter);
    }
}

/// The final component of a path stands behind its last `/`. A `/` or `/.` at
/// the end makes no difference, and what ends in `..` has no final component.
pub proof fn law_file_name(dir: Seq<char>, name: Seq<char>)
    requires
        !name.contains('/'),
        name.len() > 0,
        name != seq!['.'],
        name != seq!['.', '.'],
    ensures
        file_name(name) == Some(name),
        file_name(dir + seq!['/'] + name) == Some(name),
        file_name(dir + seq!['/']) == file_name(dir),
        file_name(dir + seq!['/', '.']) == file_name(dir),
        file_name(dir + seq!['/', '.', '.']) is None,
        file_name(Seq::<char>::empty()) is None,
        file_name(seq!['.']) is None,
        file_name(seq!['.', '.']) is None,
{
    let none = Seq::<char>::empty();
    let dot = seq!['.'];
    let up = seq!['.', '.'];
    assert(dot.len() == 1 && up.len() == 2);
    lemma_file_name_alone(name);
    lemma_file_name_alone(none);
    lemma_file_name_alone(dot);
    lemma_file_name_alone(up);
    lemma_file_name_below(dir, name);
    lemma_file_name_below(dir, none);
    lemma_file_name_below(dir, dot);
    lemma_file_name_below(dir, up);
    assert(dir + seq!['/'] + none =~= dir + seq!['/']);
    assert(dir + seq!['/'] + dot =~= dir + seq!['/', '.']);
    assert(dir + seq!['/'] + up =~= dir + seq!['/', '.', '.']);
}

} // verus!
