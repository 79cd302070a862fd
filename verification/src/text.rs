//! Character-level text operations.
//!
//! Every operation is stated over `Seq<char>`, the view of `str` and `String`, and
//! carried out on slices of `char`, so that no byte offset ever has to be shown to fall
//! on a character boundary.
use vstd::prelude::*;
use vstd::slice::slice_subrange;

verus! {

/// `String::push` appends the given character to the end of the string.
pub assume_specification[ String::push ](s: &mut String, c: char)
    ensures
        final(s)@ == old(s)@.push(c),
;

/// The Unicode `White_Space` property.
pub open spec fn white_space(c: char) -> bool {
    let u: u32 = c as u32;
    ||| 0x09 <= u <= 0x0d
    ||| u == 0x20
    ||| u == 0x85
    ||| u == 0xa0
    ||| u == 0x1680
    ||| 0x2000 <= u <= 0x200a
    ||| u == 0x2028
    ||| u == 0x2029
    ||| u == 0x202f
    ||| u == 0x205f
    ||| u == 0x3000
}

/// Whether `c` has the Unicode `White_Space` property.
pub fn is_white_space(c: char) -> (r: bool)
    ensures
        r == white_space(c),
{
    let u: u32 = c as u32;
    (0x09 <= u && u <= 0x0d) || u == 0x20 || u == 0x85 || u == 0xa0 || u == 0x1680 || (0x2000 <= u
        && u <= 0x200a) || u == 0x2028 || u == 0x2029 || u == 0x202f || u == 0x205f || u == 0x3000
}

/// Whether every character of `s` is white space.
pub open spec fn blank(s: Seq<char>) -> bool {
    forall|i: int| 0 <= i < s.len() ==> white_space(#[trigger] s[i])
}

/// `s` without its leading white space.
pub open spec fn trim_start_of(s: Seq<char>) -> Seq<char>
    decreases s.len(),
{
    if s.len() > 0 && white_space(s[0]) {
        trim_start_of(s.drop_first())
    } else {
        s
    }
}

/// `s` without its trailing white space.
pub open spec fn trim_end_of(s: Seq<char>) -> Seq<char>
    decreases s.len(),
{
    if s.len() > 0 && white_space(s.last()) {
        trim_end_of(s.drop_last())
    } else {
        s
    }
}

/// `s` without leading and trailing white space.
pub open spec fn trimmed(s: Seq<char>) -> Seq<char> {
    trim_end_of(trim_start_of(s))
}

/// The number of characters of `s` in front of its first `c`, or its length if it has none.
pub open spec fn before(s: Seq<char>, c: char) -> nat
    decreases s.len(),
{
    if s.len() == 0 || s[0] == c {
        0
    } else {
        1 + before(s.drop_first(), c)
    }
}

/// `s` cut at its first `c`, which belongs to neither part.
pub open spec fn split_once_of(s: Seq<char>, c: char) -> Option<(Seq<char>, Seq<char>)> {
    let n: nat = before(s, c);
    if n < s.len() {
        Some((s.take(n as int), s.skip(n as int + 1)))
    } else {
        None
    }
}

/// The number of characters of `s` in front of its first white space, or its length.
pub open spec fn word_len(s: Seq<char>) -> nat
    decreases s.len(),
{
    if s.len() == 0 || white_space(s[0]) {
        0
    } else {
        1 + word_len(s.drop_first())
    }
}

/// The first word of `s` and what follows it. Words are separated by white space.
pub open spec fn split_word_of(s: Seq<char>) -> Option<(Seq<char>, Seq<char>)> {
    let t = trim_start_of(s);
    if t.len() == 0 {
        None
    } else {
        Some((t.take(word_len(t) as int), t.skip(word_len(t) as int)))
    }
}

/// Whether `needle` occurs in `s`.
pub open spec fn occurs(needle: Seq<char>, s: Seq<char>) -> bool {
    exists|i: int|
        0 <= i && i + needle.len() <= s.len() && #[trigger] s.subrange(i, i + needle.len())
            == needle
}

/// `c`, in lower case if it is an ASCII letter.
pub open spec fn ascii_lower(c: char) -> char {
    if 'A' <= c && c <= 'Z' {
        ((c as u32 + 32) as u32) as char
    } else {
        c
    }
}

/// `s` with its ASCII letters in lower case.
pub open spec fn ascii_lowercase_of(s: Seq<char>) -> Seq<char> {
    Seq::new(s.len(), |i: int| ascii_lower(s[i]))
}

/// Lower case keeps white space and dots apart from other characters, and is kept by
/// itself.
pub proof fn lemma_ascii_lower(c: char)
    ensures
        white_space(ascii_lower(c)) == white_space(c),
        ascii_lower(ascii_lower(c)) == ascii_lower(c),
        ascii_lower(c) == '.' <==> c == '.',
        (c as u32) < 128 ==> (ascii_lower(c) as u32) < 128,
{
}

/// The part of `s` left when its trailing `c`s are removed.
pub open spec fn trim_end_matches_of(s: Seq<char>, c: char) -> Seq<char>
    decreases s.len(),
{
    if s.len() > 0 && s.last() == c {
        trim_end_matches_of(s.drop_last(), c)
    } else {
        s
    }
}

/// The lines of `s`, each with its line ending. The last one, if it has none, is ended by
/// a line feed.
pub open spec fn lines_of(s: Seq<char>) -> Seq<Seq<char>>
    decreases s.len(),
{
    let n: nat = before(s, '\n');
    if s.len() == 0 {
        Seq::empty()
    } else if n < s.len() {
        seq![s.take(n as int + 1)] + lines_of(s.skip(n as int + 1))
    } else {
        seq![s.push('\n')]
    }
}

/// `parts` one after the other.
pub open spec fn concatenated(parts: Seq<Seq<char>>) -> Seq<char>
    decreases parts.len(),
{
    if parts.len() == 0 {
        Seq::empty()
    } else {
        concatenated(parts.drop_last()) + parts.last()
    }
}

/// Whether `line` is one line with its ending: it ends in a line feed and holds no other.
pub open spec fn whole_line(line: Seq<char>) -> bool {
    &&& line.len() > 0
    &&& line.last() == '\n'
    &&& forall|j: int| 0 <= j < line.len() - 1 ==> #[trigger] line[j] != '\n'
}

/// Whether every one of `lines` is one line with its ending.
pub open spec fn whole_lines(lines: Seq<Seq<char>>) -> bool {
    forall|i: int| 0 <= i < lines.len() ==> whole_line(#[trigger] lines[i])
}

/// `s` with a line feed behind it if it holds anything and does not end in one.
pub open spec fn ended(s: Seq<char>) -> Seq<char> {
    if s.len() == 0 || s.last() == '\n' {
        s
    } else {
        s.push('\n')
    }
}

/// `parts` one after the other, with `sep` between neighbours.
pub open spec fn joined(parts: Seq<Seq<char>>, sep: Seq<char>) -> Seq<char>
    decreases parts.len(),
{
    if parts.len() == 0 {
        Seq::empty()
    } else if parts.len() == 1 {
        parts[0]
    } else {
        joined(parts.drop_last(), sep) + sep + parts.last()
    }
}

/// The views of a sequence of character vectors.
pub open spec fn views(parts: Seq<Vec<char>>) -> Seq<Seq<char>> {
    Seq::new(parts.len(), |i: int| parts[i]@)
}

/// Trimming the start keeps a suffix, and what it removes is white space.
pub proof fn lemma_trim_start(s: Seq<char>) -> (a: int)
    ensures
        0 <= a <= s.len(),
        trim_start_of(s) == s.skip(a),
        forall|i: int| 0 <= i < a ==> white_space(#[trigger] s[i]),
        a < s.len() ==> !white_space(s[a]),
    decreases s.len(),
{
    if s.len() > 0 && white_space(s[0]) {
        let a = lemma_trim_start(s.drop_first()) + 1;
        assert(s.drop_first().skip(a - 1) == s.skip(a));
        assert forall|i: int| 0 <= i < a implies white_space(#[trigger] s[i]) by {
            if i > 0 {
                assert(s[i] == s.drop_first()[i - 1]);
            }
        }
        a
    } else {
        assert(s.skip(0) == s);
        0
    }
}

/// Trimming the end keeps a prefix, and what it removes is white space.
pub proof fn lemma_trim_end(s: Seq<char>) -> (b: int)
    ensures
        0 <= b <= s.len(),
        trim_end_of(s) == s.take(b),
        forall|i: int| b <= i < s.len() ==> white_space(#[trigger] s[i]),
        b > 0 ==> !white_space(s[b - 1]),
    decreases s.len(),
{
    if s.len() > 0 && white_space(s.last()) {
        let b = lemma_trim_end(s.drop_last());
        assert(s.drop_last().take(b) == s.take(b));
        assert forall|i: int| b <= i < s.len() implies white_space(#[trigger] s[i]) by {
            if i < s.len() - 1 {
                assert(s[i] == s.drop_last()[i]);
            }
        }
        b
    } else {
        assert(s.take(s.len() as int) == s);
        s.len() as int
    }
}

/// Trimming keeps a stretch of the text, and what it removes is white space.
pub proof fn lemma_trimmed(s: Seq<char>) -> (r: (int, int))
    ensures
        0 <= r.0 <= r.1 <= s.len(),
        trimmed(s) == s.subrange(r.0, r.1),
        forall|i: int| 0 <= i < r.0 ==> white_space(#[trigger] s[i]),
        forall|i: int| r.1 <= i < s.len() ==> white_space(#[trigger] s[i]),
        r.0 < r.1 ==> !white_space(s[r.0]) && !white_space(s[r.1 - 1]),
{
    let a = lemma_trim_start(s);
    let t = trim_start_of(s);
    let b = lemma_trim_end(t);
    assert(t.take(b) =~= s.subrange(a, a + b));
    assert forall|i: int| a + b <= i < s.len() implies white_space(#[trigger] s[i]) by {
        assert(s[i] == t[i - a]);
    }
    if b > 0 {
        assert(t[b - 1] == s[a + b - 1]);
    }
    (a, a + b)
}

/// A text whose first and last characters are no white space is its own trimmed form.
pub proof fn lemma_trimmed_unchanged(s: Seq<char>)
    requires
        s.len() > 0,
        !white_space(s[0]),
        !white_space(s.last()),
    ensures
        trimmed(s) == s,
{
}

/// A text trims to nothing exactly if it is blank.
pub proof fn lemma_trimmed_empty(s: Seq<char>)
    ensures
        trimmed(s).len() == 0 <==> blank(s),
{
    let r = lemma_trimmed(s);
    if r.0 < r.1 {
        assert(!white_space(s[r.0]));
    }
}

/// The characters in front of the first `c` are no `c`, and the next one is.
pub proof fn lemma_before(s: Seq<char>, c: char)
    ensures
        before(s, c) <= s.len(),
        forall|i: int| 0 <= i < before(s, c) ==> #[trigger] s[i] != c,
        before(s, c) < s.len() ==> s[before(s, c) as int] == c,
    decreases s.len(),
{
    if s.len() > 0 && s[0] != c {
        lemma_before(s.drop_first(), c);
        assert forall|i: int| 0 <= i < before(s, c) implies #[trigger] s[i] != c by {
            if i > 0 {
                assert(s[i] == s.drop_first()[i - 1]);
            }
        }
    }
}

/// The first `c` stands at `n` if none stands in front of it and one stands there.
pub proof fn lemma_before_is(s: Seq<char>, c: char, n: int)
    requires
        0 <= n <= s.len(),
        forall|i: int| 0 <= i < n ==> #[trigger] s[i] != c,
        n < s.len() ==> s[n] == c,
    ensures
        before(s, c) == n,
{
    lemma_before(s, c);
    let b: int = before(s, c) as int;
    if b < n {
        assert(s[b] != c);
    }
    if n < b {
        assert(s[n] != c);
    }
}

/// Each line of a text is one line with its ending.
pub proof fn lemma_lines_are_whole(s: Seq<char>)
    ensures
        whole_lines(lines_of(s)),
    decreases s.len(),
{
    let n: int = before(s, '\n') as int;
    lemma_before(s, '\n');
    if s.len() > 0 && n < s.len() {
        let rest = s.skip(n + 1);
        lemma_lines_are_whole(rest);
        let lines = lines_of(s);
        assert forall|i: int| 0 <= i < lines.len() implies whole_line(#[trigger] lines[i]) by {
            if i == 0 {
                assert(lines[0] == s.take(n + 1));
            } else {
                assert(lines[i] == lines_of(rest)[i - 1]);
            }
        }
    }
}

/// Lines written one after the other are read back as they were.
pub proof fn lemma_lines_of_concatenated(lines: Seq<Seq<char>>, rest: Seq<char>)
    requires
        whole_lines(lines),
    ensures
        lines_of(concatenated(lines) + rest) == lines + lines_of(rest),
    decreases lines.len(),
{
    if lines.len() == 0 {
        assert(concatenated(lines) + rest =~= rest);
        assert(lines + lines_of(rest) =~= lines_of(rest));
    } else {
        let last = lines.last();
        let tail = last + rest;
        assert(concatenated(lines) + rest =~= concatenated(lines.drop_last()) + tail);
        assert(whole_line(lines[lines.len() - 1]));
        lemma_lines_of_concatenated(lines.drop_last(), tail);
        let n: int = last.len() - 1;
        assert forall|i: int| 0 <= i < n implies #[trigger] tail[i] != '\n' by {
            assert(tail[i] == last[i]);
        }
        assert(tail[n] == last[n]);
        lemma_before_is(tail, '\n', n);
        assert(tail.take(n + 1) =~= last);
        assert(tail.skip(n + 1) =~= rest);
        assert(lines_of(tail) =~= seq![last] + lines_of(rest));
        assert(lines.drop_last() + (seq![last] + lines_of(rest)) =~= lines + lines_of(rest));
    }
}

/// Writing parts in two goes writes them all.
pub proof fn lemma_concatenated_concat(a: Seq<Seq<char>>, b: Seq<Seq<char>>)
    ensures
        concatenated(a + b) == concatenated(a) + concatenated(b),
    decreases b.len(),
{
    if b.len() == 0 {
        assert(a + b =~= a);
        assert(concatenated(a) + concatenated(b) =~= concatenated(a));
    } else {
        assert((a + b).drop_last() =~= a + b.drop_last());
        lemma_concatenated_concat(a, b.drop_last());
        assert(concatenated(a + b) =~= concatenated(a) + concatenated(b));
    }
}

/// A single part is written as it is.
pub proof fn lemma_concatenated_one(part: Seq<char>)
    ensures
        concatenated(seq![part]) == part,
{
    assert(seq![part].drop_last() =~= Seq::<Seq<char>>::empty());
    assert(concatenated(seq![part].drop_last()) =~= Seq::<char>::empty());
    assert(concatenated(seq![part]) =~= part);
}

/// The lines of a text, one after the other, are the text with an end to its last line.
pub proof fn lemma_concatenated_lines(s: Seq<char>)
    ensures
        concatenated(lines_of(s)) == ended(s),
    decreases s.len(),
{
    let n: int = before(s, '\n') as int;
    lemma_before(s, '\n');
    if s.len() == 0 {
    } else if n < s.len() {
        let first = s.take(n + 1);
        let rest = s.skip(n + 1);
        lemma_concatenated_lines(rest);
        lemma_concatenated_concat(seq![first], lines_of(rest));
        lemma_concatenated_one(first);
        if rest.len() > 0 {
            assert(rest.last() == s.last());
        }
        assert(first + ended(rest) =~= ended(s));
    } else {
        assert(s[s.len() - 1] != '\n');
        lemma_concatenated_one(s.push('\n'));
    }
}

/// The characters of `s`.
pub fn chars_of(s: &str) -> (r: Vec<char>)
    ensures
        r@ == s@,
{
    let mut out: Vec<char> = Vec::new();
    for c in it: s.chars()
        invariant
            it.seq() == s@,
            out@ == s@.take(it.index() as int),
    {
        out.push(c);
        assert(s@.take(it.index() + 1) == s@.take(it.index() as int).push(c));
    }
    assert(s@.take(s@.len() as int) == s@);
    out
}

/// Appends the characters of `s` to `out`.
pub fn push_chars(out: &mut Vec<char>, s: &[char])
    ensures
        final(out)@ == old(out)@ + s@,
{
    let n: usize = s.len();
    let mut i: usize = 0;
    while i < n
        invariant
            i <= n,
            n == s@.len(),
            out@ == old(out)@ + s@.take(i as int),
        decreases n - i,
    {
        out.push(s[i]);
        i = i + 1;
        assert(s@.take(i as int) == s@.take(i - 1).push(s@[i - 1]));
    }
    assert(s@.take(n as int) == s@);
}

/// Appends the characters of `s` to `out`.
pub fn push_text(out: &mut Vec<char>, s: &str)
    ensures
        final(out)@ == old(out)@ + s@,
{
    let cs = chars_of(s);
    push_chars(out, cs.as_slice());
}

/// The string made of the characters `cs`.
pub fn string_of(cs: &[char]) -> (r: String)
    ensures
        r@ == cs@,
{
    let mut out = String::new();
    let n: usize = cs.len();
    let mut i: usize = 0;
    while i < n
        invariant
            i <= n,
            n == cs@.len(),
            out@ == cs@.take(i as int),
        decreases n - i,
    {
        out.push(cs[i]);
        i = i + 1;
        assert(cs@.take(i as int) == cs@.take(i - 1).push(cs@[i - 1]));
    }
    assert(cs@.take(n as int) == cs@);
    out
}

/// Whether two character slices are equal.
pub fn same_chars(a: &[char], b: &[char]) -> (r: bool)
    ensures
        r == (a@ == b@),
{
    if a.len() != b.len() {
        return false;
    }
    let n: usize = a.len();
    let mut i: usize = 0;
    while i < n
        invariant
            i <= n,
            n == a@.len(),
            n == b@.len(),
            forall|j: int| 0 <= j < i ==> a@[j] == b@[j],
        decreases n - i,
    {
        if a[i] != b[i] {
            return false;
        }
        i = i + 1;
    }
    assert(a@ =~= b@);
    true
}

/// Whether `cs` spells out `s`.
pub fn is_text(cs: &[char], s: &str) -> (r: bool)
    ensures
        r == (cs@ == s@),
{
    let other = chars_of(s);
    same_chars(cs, other.as_slice())
}

/// `cs` without leading white space.
pub fn trim_start(cs: &[char]) -> (r: &[char])
    ensures
        r@ == trim_start_of(cs@),
{
    let n: usize = cs.len();
    let mut i: usize = 0;
    assert(cs@.skip(0) == cs@);
    while i < n && is_white_space(cs[i])
        invariant
            i <= n,
            n == cs@.len(),
            trim_start_of(cs@) == trim_start_of(cs@.skip(i as int)),
        decreases n - i,
    {
        assert(cs@.skip(i as int).drop_first() == cs@.skip(i + 1));
        i = i + 1;
    }
    assert(cs@.subrange(i as int, n as int) == cs@.skip(i as int));
    slice_subrange(cs, i, n)
}

/// `cs` without trailing white space.
pub fn trim_end(cs: &[char]) -> (r: &[char])
    ensures
        r@ == trim_end_of(cs@),
{
    let mut n: usize = cs.len();
    assert(cs@.take(n as int) == cs@);
    while n > 0 && is_white_space(cs[n - 1])
        invariant
            n <= cs@.len(),
            trim_end_of(cs@) == trim_end_of(cs@.take(n as int)),
        decreases n,
    {
        assert(cs@.take(n as int).drop_last() == cs@.take(n - 1));
        n = n - 1;
    }
    assert(cs@.subrange(0, n as int) == cs@.take(n as int));
    slice_subrange(cs, 0, n)
}

/// `cs` without leading and trailing white space.
pub fn trim(cs: &[char]) -> (r: &[char])
    ensures
        r@ == trimmed(cs@),
{
    trim_end(trim_start(cs))
}

/// `cs` without its trailing `c`s.
pub fn trim_end_matches(cs: &[char], c: char) -> (r: &[char])
    ensures
        r@ == trim_end_matches_of(cs@, c),
{
    let mut n: usize = cs.len();
    assert(cs@.take(n as int) == cs@);
    while n > 0 && cs[n - 1] == c
        invariant
            n <= cs@.len(),
            trim_end_matches_of(cs@, c) == trim_end_matches_of(cs@.take(n as int), c),
        decreases n,
    {
        assert(cs@.take(n as int).drop_last() == cs@.take(n - 1));
        n = n - 1;
    }
    assert(cs@.subrange(0, n as int) == cs@.take(n as int));
    slice_subrange(cs, 0, n)
}

/// The index of the first `c` in `cs`, or the length of `cs`.
pub fn find(cs: &[char], c: char) -> (r: usize)
    ensures
        r == before(cs@, c),
        r <= cs@.len(),
{
    let n: usize = cs.len();
    let mut i: usize = 0;
    assert(cs@.skip(0) == cs@);
    while i < n && cs[i] != c
        invariant
            i <= n,
            n == cs@.len(),
            before(cs@, c) == i + before(cs@.skip(i as int), c),
        decreases n - i,
    {
        assert(cs@.skip(i as int).drop_first() == cs@.skip(i + 1));
        i = i + 1;
    }
    i
}

/// `cs` cut at its first `c`, which belongs to neither part.
pub fn split_once(cs: &[char], c: char) -> (r: Option<(&[char], &[char])>)
    ensures
        match r {
            Some(parts) => split_once_of(cs@, c) == Some((parts.0@, parts.1@)),
            None => split_once_of(cs@, c) is None,
        },
{
    let n: usize = find(cs, c);
    if n < cs.len() {
        assert(cs@.subrange(0, n as int) == cs@.take(n as int));
        assert(cs@.subrange(n + 1, cs@.len() as int) == cs@.skip(n + 1));
        Some((slice_subrange(cs, 0, n), slice_subrange(cs, n + 1, cs.len())))
    } else {
        None
    }
}

/// The first word of `cs` and what follows it.
pub fn split_word(cs: &[char]) -> (r: Option<(&[char], &[char])>)
    ensures
        match r {
            Some(parts) => split_word_of(cs@) == Some((parts.0@, parts.1@)),
            None => split_word_of(cs@) is None,
        },
{
    let t = trim_start(cs);
    let n: usize = t.len();
    if n == 0 {
        return None;
    }
    let mut i: usize = 0;
    assert(t@.skip(0) == t@);
    while i < n && !is_white_space(t[i])
        invariant
            i <= n,
            n == t@.len(),
            word_len(t@) == i + word_len(t@.skip(i as int)),
        decreases n - i,
    {
        assert(t@.skip(i as int).drop_first() == t@.skip(i + 1));
        i = i + 1;
    }
    assert(t@.subrange(0, i as int) == t@.take(i as int));
    assert(t@.subrange(i as int, n as int) == t@.skip(i as int));
    Some((slice_subrange(t, 0, i), slice_subrange(t, i, n)))
}

/// Whether `cs` starts with `prefix`.
pub fn starts_with(cs: &[char], prefix: &[char]) -> (r: bool)
    ensures
        r == prefix@.is_prefix_of(cs@),
{
    if prefix.len() > cs.len() {
        return false;
    }
    assert(cs@.take(prefix@.len() as int) == cs@.subrange(0, prefix@.len() as int));
    same_chars(slice_subrange(cs, 0, prefix.len()), prefix)
}

/// Whether `cs` ends with `suffix`.
pub fn ends_with(cs: &[char], suffix: &[char]) -> (r: bool)
    ensures
        r == suffix@.is_suffix_of(cs@),
{
    if suffix.len() > cs.len() {
        return false;
    }
    let at: usize = cs.len() - suffix.len();
    same_chars(slice_subrange(cs, at, cs.len()), suffix)
}

/// Whether `needle` occurs in `cs`.
pub fn contains(cs: &[char], needle: &[char]) -> (r: bool)
    ensures
        r == occurs(needle@, cs@),
{
    let n: usize = cs.len();
    let k: usize = needle.len();
    let mut i: usize = 0;
    while i <= n && n - i >= k
        invariant
            i <= n + 1,
            n == cs@.len(),
            k == needle@.len(),
            forall|j: int| 0 <= j < i ==> #[trigger] cs@.subrange(j, j + k) != needle@,
        decreases n + 1 - i,
    {
        if same_chars(slice_subrange(cs, i, i + k), needle) {
            return true;
        }
        if i == n {
            return false;
        }
        i = i + 1;
    }
    false
}

/// `c`, in lower case if it is an ASCII letter.
pub fn to_ascii_lower(c: char) -> (r: char)
    ensures
        r == ascii_lower(c),
{
    if 'A' <= c && c <= 'Z' {
        (c as u8 + 32) as char
    } else {
        c
    }
}

/// `cs` with its ASCII letters in lower case.
pub fn to_ascii_lowercase(cs: &[char]) -> (r: Vec<char>)
    ensures
        r@ == ascii_lowercase_of(cs@),
{
    let mut out: Vec<char> = Vec::new();
    let n: usize = cs.len();
    let mut i: usize = 0;
    while i < n
        invariant
            i <= n,
            n == cs@.len(),
            out@.len() == i,
            forall|j: int| 0 <= j < i ==> out@[j] == ascii_lower(cs@[j]),
        decreases n - i,
    {
        out.push(to_ascii_lower(cs[i]));
        i = i + 1;
    }
    assert(out@ =~= ascii_lowercase_of(cs@));
    out
}

/// Whether `cs` spells out `s` when the case of ASCII letters is ignored.
pub fn is_text_ignoring_ascii_case(cs: &[char], s: &str) -> (r: bool)
    ensures
        r == (ascii_lowercase_of(cs@) == ascii_lowercase_of(s@)),
{
    let other = chars_of(s);
    let a = to_ascii_lowercase(cs);
    let b = to_ascii_lowercase(other.as_slice());
    same_chars(a.as_slice(), b.as_slice())
}

/// The lines of `cs`, each with its line ending.
pub fn lines(cs: &[char]) -> (r: Vec<Vec<char>>)
    ensures
        views(r@) == lines_of(cs@),
{
    let mut out: Vec<Vec<char>> = Vec::new();
    let n: usize = cs.len();
    let mut i: usize = 0;
    assert(cs@.skip(0) == cs@);
    while i < n
        invariant
            i <= n,
            n == cs@.len(),
            lines_of(cs@) == views(out@) + lines_of(cs@.skip(i as int)),
        decreases n - i,
    {
        let rest = slice_subrange(cs, i, n);
        assert(rest@ == cs@.skip(i as int));
        let k: usize = find(rest, '\n');
        let ghost so_far = out@;
        let mut line: Vec<char> = Vec::new();
        if k < rest.len() {
            push_chars(&mut line, slice_subrange(rest, 0, k + 1));
            assert(line@ =~= rest@.take(k + 1));
            assert(rest@.skip(k + 1) == cs@.skip(i + k + 1));
            i = i + k + 1;
        } else {
            push_chars(&mut line, rest);
            line.push('\n');
            assert(line@ =~= rest@.push('\n'));
            i = n;
        }
        out.push(line);
        assert(views(out@) =~= views(so_far) + seq![line@]);
        assert(lines_of(cs@) =~= views(out@) + lines_of(cs@.skip(i as int)));
    }
    assert(lines_of(cs@) =~= views(out@));
    out
}

/// `parts` one after the other.
pub fn concatenate(parts: &Vec<Vec<char>>) -> (r: Vec<char>)
    ensures
        r@ == concatenated(views(parts@)),
{
    let mut out: Vec<char> = Vec::new();
    let n: usize = parts.len();
    let mut i: usize = 0;
    let ghost all = views(parts@);
    while i < n
        invariant
            i <= n,
            n == parts@.len(),
            all == views(parts@),
            out@ == concatenated(all.take(i as int)),
        decreases n - i,
    {
        assert(all.take(i + 1).drop_last() == all.take(i as int));
        push_chars(&mut out, parts[i].as_slice());
        assert(all.take(i + 1).last() == parts@[i as int]@);
        i = i + 1;
    }
    assert(all.take(n as int) == all);
    out
}

/// `parts` one after the other, with `sep` between neighbours.
pub fn join(parts: &Vec<Vec<char>>, sep: &str) -> (r: Vec<char>)
    ensures
        r@ == joined(views(parts@), sep@),
{
    let mut out: Vec<char> = Vec::new();
    let n: usize = parts.len();
    let mut i: usize = 0;
    let ghost all = views(parts@);
    while i < n
        invariant
            i <= n,
            n == parts@.len(),
            all == views(parts@),
            out@ == joined(all.take(i as int), sep@),
        decreases n - i,
    {
        assert(all.take(i + 1).drop_last() == all.take(i as int));
        if i > 0 {
            push_text(&mut out, sep);
        }
        push_chars(&mut out, parts[i].as_slice());
        assert(all.take(i + 1).last() == parts@[i as int]@);
        i = i + 1;
        assert(out@ =~= joined(all.take(i as int), sep@));
    }
    assert(all.take(n as int) == all);
    out
}

/// Lower case changes the capitals of ASCII, each to its small letter, and nothing else.
pub proof fn law_capitals_alone_are_lowered(s: Seq<char>, i: int)
    requires
        0 <= i < s.len(),
    ensures
        ascii_lowercase_of(s).len() == s.len(),
        'A' <= s[i] && s[i] <= 'Z' ==> ascii_lowercase_of(s)[i] as u32 == s[i] as u32 + 32,
        !('A' <= s[i] && s[i] <= 'Z') ==> ascii_lowercase_of(s)[i] == s[i],
{
    if 'A' <= s[i] && s[i] <= 'Z' {
        let l = (s[i] as u32 + 32) as u32;
        vstd::utf8::char_u32_cast(l as char, l);
    }
}

/// Trimming takes off the white space on both sides and nothing else: the text is `r.0`, what
/// is left, and `r.1`.
pub proof fn law_trimming_takes_off_white_space_alone(s: Seq<char>) -> (r: (Seq<char>, Seq<char>))
    ensures
        s == r.0 + trimmed(s) + r.1,
        blank(r.0),
        blank(r.1),
        trimmed(s).len() > 0 ==> !white_space(trimmed(s)[0]) && !white_space(trimmed(s).last()),
{
    let b = lemma_trimmed(s);
    let front = s.take(b.0);
    let back = s.skip(b.1);
    assert(front + trimmed(s) + back =~= s);
    assert forall|i: int| 0 <= i < back.len() implies white_space(#[trigger] back[i]) by {
        assert(back[i] == s[b.1 + i]);
    }
    (front, back)
}

/// A text is cut at the first of the characters: none is in the part in front, and the two
/// parts with the character between them are the text.
pub proof fn law_text_is_cut_at_the_first(s: Seq<char>, c: char)
    ensures
        match split_once_of(s, c) {
            Some((front, back)) => s == front + seq![c] + back && !front.contains(c),
            None => !s.contains(c),
        },
{
    lemma_before(s, c);
    let n: int = before(s, c) as int;
    if n < s.len() {
        let front = s.take(n);
        assert(front + seq![c] + s.skip(n + 1) =~= s);
        assert forall|i: int| 0 <= i < front.len() implies front[i] != c by {
            assert(front[i] == s[i]);
        }
    } else {
        assert forall|i: int| 0 <= i < s.len() implies s[i] != c by {
            assert(s[i] != c);
        }
    }
}

/// A text occurs in another exactly if the other is it with something in front and behind.
pub proof fn law_text_occurs_between_others(
    front: Seq<char>,
    needle: Seq<char>,
    back: Seq<char>,
    s: Seq<char>,
)
    ensures
        occurs(needle, front + needle + back),
        occurs(needle, s) ==> exists|a: Seq<char>, b: Seq<char>|
            s == #[trigger] (a + needle + b),
{
    let whole = front + needle + back;
    let k = front.len() as int;
    assert(whole.subrange(k, k + needle.len()) =~= needle);
    if occurs(needle, s) {
        let i = choose|i: int|
            0 <= i && i + needle.len() <= s.len() && #[trigger] s.subrange(i, i + needle.len())
                == needle;
        assert(s =~= s.take(i) + needle + s.skip(i + needle.len()));
    }
}

/// These twenty-five characters are white space, and no others.
pub proof fn law_white_space_is_this(c: char)
    ensures
        white_space(c) <==> {
            ||| c as u32 == 0x9
            ||| c as u32 == 0xa
            ||| c as u32 == 0xb
            ||| c as u32 == 0xc
            ||| c as u32 == 0xd
            ||| c as u32 == 0x20
            ||| c as u32 == 0x85
            ||| c as u32 == 0xa0
            ||| c as u32 == 0x1680
            ||| c as u32 == 0x2000
            ||| c as u32 == 0x2001
            ||| c as u32 == 0x2002
            ||| c as u32 == 0x2003
            ||| c as u32 == 0x2004
            ||| c as u32 == 0x2005
            ||| c as u32 == 0x2006
            ||| c as u32 == 0x2007
            ||| c as u32 == 0x2008
            ||| c as u32 == 0x2009
            ||| c as u32 == 0x200a
            ||| c as u32 == 0x2028
            ||| c as u32 == 0x2029
            ||| c as u32 == 0x202f
            ||| c as u32 == 0x205f
            ||| c as u32 == 0x3000
        },
{
}

/// A line ends at the first line feed, and the lines behind it are those of what follows. A
/// last line without one gets one.
pub proof fn law_lines_end_at_line_feeds(line: Seq<char>, rest: Seq<char>)
    requires
        !line.contains('\n'),
    ensures
        lines_of(line + seq!['\n'] + rest) == seq![line + seq!['\n']] + lines_of(rest),
        line.len() > 0 ==> lines_of(line) == seq![line + seq!['\n']],
        lines_of(Seq::<char>::empty()) == Seq::<Seq<char>>::empty(),
{
    let n = line.len() as int;
    let s = line + seq!['\n'] + rest;
    assert forall|i: int| 0 <= i < n implies #[trigger] s[i] != '\n' by {
        assert(line.contains(line[i]));
    }
    assert(s[n] == '\n');
    lemma_before_is(s, '\n', n);
    assert(s.take(n + 1) =~= line + seq!['\n']);
    assert(s.skip(n + 1) =~= rest);
    lemma_before(line, '\n');
    if before(line, '\n') < n {
        assert(line.contains(line[before(line, '\n') as int]));
    }
    assert(line.push('\n') =~= line + seq!['\n']);
}

/// One part joined is the part, and a part behind others is joined to them by the separator.
pub proof fn law_parts_are_joined_by_the_separator(
    parts: Seq<Seq<char>>,
    part: Seq<char>,
    sep: Seq<char>,
)
    ensures
        joined(seq![part], sep) == part,
        parts.len() > 0 ==> joined(parts.push(part), sep) == joined(parts, sep) + sep + part,
        concatenated(parts.push(part)) == concatenated(parts) + part,
{
    assert(parts.push(part).drop_last() =~= parts);
}

} // verus!
