//! Character sequences: the searching, trimming and line splitting that the
//! renderer is built from.
//!
//! Every position in this crate is a position in a sequence of `char`s, so no
//! operation can cut a multi-byte character in two.
use vstd::prelude::*;

verus! {

/// `String::push` appends one character.
pub assume_specification[ String::push ](s: &mut String, c: char)
    ensures
        final(s)@ == old(s)@.push(c),
;

/// Whether `c` is white space as Unicode defines it (`White_Space`).
pub open spec fn is_space(c: char) -> bool {
    let n = c as u32;
    ||| 0x09 <= n <= 0x0D
    ||| n == 0x20
    ||| n == 0x85
    ||| n == 0xA0
    ||| n == 0x1680
    ||| 0x2000 <= n <= 0x200A
    ||| n == 0x2028
    ||| n == 0x2029
    ||| n == 0x202F
    ||| n == 0x205F
    ||| n == 0x3000
}

/// `n` times the character `c`.
pub open spec fn repeated(c: char, n: nat) -> Seq<char> {
    Seq::new(n, |i: int| c)
}

/// `s` without its leading white space.
pub open spec fn trimmed_start(s: Seq<char>) -> Seq<char>
    decreases s.len(),
{
    if s.len() > 0 && is_space(s[0]) {
        trimmed_start(s.skip(1))
    } else {
        s
    }
}

/// `s` without its trailing white space.
pub open spec fn trimmed_end(s: Seq<char>) -> Seq<char>
    decreases s.len(),
{
    if s.len() > 0 && is_space(s.last()) {
        trimmed_end(s.drop_last())
    } else {
        s
    }
}

/// `s` without leading and trailing white space.
pub open spec fn trimmed(s: Seq<char>) -> Seq<char> {
    trimmed_end(trimmed_start(s))
}

/// Whether `p` stands in `s` at position `i`.
pub open spec fn occurs_at(s: Seq<char>, p: Seq<char>, i: int) -> bool {
    0 <= i && i + p.len() <= s.len() && s.subrange(i, i + p.len()) == p
}

/// The first position at or after `from` where `p` stands in `s`.
pub open spec fn find_from(s: Seq<char>, p: Seq<char>, from: int) -> Option<int>
    decreases s.len() - from,
{
    if from < 0 || from + p.len() > s.len() {
        None
    } else if occurs_at(s, p, from) {
        Some(from)
    } else {
        proof {
            assert(p.len() == 0 ==> s.subrange(from, from) =~= p);
        }
        find_from(s, p, from + 1)
    }
}

/// Whether `p` stands somewhere in `s`.
pub open spec fn has_infix(s: Seq<char>, p: Seq<char>) -> bool {
    find_from(s, p, 0) is Some
}

/// A line without the carriage return that a line feed followed, if one did.
pub open spec fn without_return(line: Seq<char>) -> Seq<char> {
    if line.len() > 0 && line.last() == '\r' {
        line.drop_last()
    } else {
        line
    }
}

/// The lines of a text. A line ends at a line feed, or at a carriage return
/// and a line feed; neither belongs to the line. The last line needs no
/// ending, and a text that ends in a line ending has no empty last line.
pub open spec fn lines_of(text: Seq<char>) -> Seq<Seq<char>>
    decreases text.len(),
    via lines_of_ends
{
    if text.len() == 0 {
        Seq::empty()
    } else {
        match find_from(text, seq!['\n'], 0) {
            None => seq![text],
            Some(end) => seq![without_return(text.take(end))] + lines_of(text.skip(end + 1)),
        }
    }
}

#[via_fn]
proof fn lines_of_ends(text: Seq<char>) {
    lemma_find_from(text, seq!['\n'], 0);
}

/// The text made of the lines, each with a line feed behind it.
pub open spec fn joined(lines: Seq<Seq<char>>) -> Seq<char>
    decreases lines.len(),
{
    if lines.len() == 0 {
        Seq::empty()
    } else {
        lines.first() + seq!['\n'] + joined(lines.drop_first())
    }
}

/// The sequences that a vector of lines stands for.
pub open spec fn line_views(lines: Seq<Vec<char>>) -> Seq<Seq<char>> {
    lines.map_values(|line: Vec<char>| line@)
}

/// An executable position, read as a mathematical one.
pub open spec fn position(r: Option<usize>) -> Option<int> {
    match r {
        Some(i) => Some(i as int),
        None => None,
    }
}

/// What `find_from` returns is an occurrence, and the first one from `from` on.
pub proof fn lemma_find_from(s: Seq<char>, p: Seq<char>, from: int)
    requires
        0 <= from,
    ensures
        match find_from(s, p, from) {
            Some(i) => from <= i && occurs_at(s, p, i) && forall|j: int|
                from <= j < i ==> !occurs_at(s, p, j),
            None => forall|j: int| from <= j ==> !occurs_at(s, p, j),
        },
    decreases s.len() - from,
{
    if from + p.len() > s.len() {
    } else if occurs_at(s, p, from) {
    } else {
        assert(p.len() == 0 ==> s.subrange(from, from) =~= p);
        lemma_find_from(s, p, from + 1);
    }
}

/// Searching `s` from `from` on is searching what is left of `s` behind `from`.
pub proof fn lemma_find_in_rest(s: Seq<char>, p: Seq<char>, k: int, from: int)
    requires
        0 <= k <= from,
        k <= s.len(),
    ensures
        find_from(s.skip(k), p, from - k) == match find_from(s, p, from) {
            Some(i) => Some(i - k),
            None => None,
        },
    decreases s.len() - from,
{
    let t = s.skip(k);
    if from + p.len() > s.len() {
    } else {
        assert(t.subrange(from - k, from - k + p.len()) == s.subrange(from, from + p.len()));
        if occurs_at(s, p, from) {
        } else {
            assert(p.len() == 0 ==> s.subrange(from, from) =~= p);
            lemma_find_in_rest(s, p, k, from + 1);
        }
    }
}

/// One more line joins the text behind the lines before it.
pub proof fn lemma_joined_push(lines: Seq<Seq<char>>, line: Seq<char>)
    ensures
        joined(lines.push(line)) == joined(lines) + line + seq!['\n'],
    decreases lines.len(),
{
    let more = lines.push(line);
    if lines.len() == 0 {
        assert(more.drop_first() == Seq::<Seq<char>>::empty());
        assert(joined(more.drop_first()) == Seq::<char>::empty());
    } else {
        assert(more.drop_first() == lines.drop_first().push(line));
        lemma_joined_push(lines.drop_first(), line);
    }
}

/// Splitting undoes joining: lines that hold no line feed and do not end in
/// a carriage return are the lines of the text that they are joined to.
pub proof fn lemma_lines_of_joined(lines: Seq<Seq<char>>)
    requires
        forall|k: int|
            0 <= k < lines.len() ==> !(#[trigger] lines[k]).contains('\n') && without_return(
                lines[k],
            ) == lines[k],
    ensures
        lines_of(joined(lines)) == lines,
    decreases lines.len(),
{
    if lines.len() > 0 {
        let first = lines.first();
        let rest = lines.drop_first();
        let text = joined(lines);
        let feed = seq!['\n'];
        let end = first.len() as int;
        assert(text.subrange(end, end + 1) == feed);
        assert forall|j: int| 0 <= j < first.len() implies text[j] != feed[0] by {
            assert(text[j] == first[j]);
        }
        lemma_found_at(text, feed, 0, end);
        assert(text.take(end) == first);
        assert(text.skip(end + 1) == joined(rest));
        assert forall|k: int| 0 <= k < rest.len() implies !(#[trigger] rest[k]).contains('\n')
            && without_return(rest[k]) == rest[k] by {
            assert(rest[k] == lines[k + 1]);
        }
        lemma_lines_of_joined(rest);
        assert(seq![first] + rest == lines);
    }
}

/// A pattern that stands at `at`, and whose first character does not occur
/// between `from` and `at`, is first found at `at`.
pub proof fn lemma_found_at(s: Seq<char>, p: Seq<char>, from: int, at: int)
    requires
        0 <= from <= at,
        p.len() > 0,
        occurs_at(s, p, at),
        forall|j: int| from <= j < at ==> s[j] != p[0],
    ensures
        find_from(s, p, from) == Some(at),
    decreases at - from,
{
    if from < at {
        if occurs_at(s, p, from) {
            assert(s.subrange(from, from + p.len())[0] == p[0]);
        }
        lemma_found_at(s, p, from + 1, at);
    }
}

/// What is found in `s` is found at the same place in `s` with more text
/// behind it.
pub proof fn lemma_found_in_prefix(s: Seq<char>, more: Seq<char>, p: Seq<char>, from: int)
    requires
        0 <= from,
        find_from(s, p, from) is Some,
    ensures
        find_from(s + more, p, from) == find_from(s, p, from),
    decreases s.len() - from,
{
    let at = find_from(s, p, from)->0;
    lemma_find_from(s, p, from);
    assert((s + more).subrange(from, from + p.len()) == s.subrange(from, from + p.len()));
    if !occurs_at(s, p, from) {
        lemma_found_in_prefix(s, more, p, from + 1);
    }
}

/// A pattern whose first character does not occur in `s` stands nowhere in
/// `s`.
pub proof fn lemma_absent_char(s: Seq<char>, p: Seq<char>, from: int)
    requires
        0 <= from,
        p.len() > 0,
        !s.contains(p[0]),
    ensures
        find_from(s, p, from) is None,
    decreases s.len() - from,
{
    if from + p.len() > s.len() {
    } else {
        if occurs_at(s, p, from) {
            assert(s.subrange(from, from + p.len())[0] == p[0]);
            assert(s[from] == p[0]);
        }
        lemma_absent_char(s, p, from + 1);
    }
}

/// Whether `c` is white space.
pub fn is_whitespace(c: char) -> (r: bool)
    ensures
        r == is_space(c),
{
    let n: u32 = c as u32;
    (0x09 <= n && n <= 0x0D) || n == 0x20 || n == 0x85 || n == 0xA0 || n == 0x1680 || (0x2000 <= n
        && n <= 0x200A) || n == 0x2028 || n == 0x2029 || n == 0x202F || n == 0x205F || n == 0x3000
}

/// The characters of a string, in order.
pub fn chars_of(s: &str) -> (v: Vec<char>)
    ensures
        v@ == s@,
{
    let mut v: Vec<char> = Vec::new();
    for c in it: s.chars()
        invariant
            v@ == it.seq().take(it.index() as int),
            it.seq() == s@,
    {
        v.push(c);
    }
    v
}

/// The string made of the given characters.
pub fn string_of(v: &[char]) -> (s: String)
    ensures
        s@ == v@,
{
    let mut s = String::new();
    let mut i: usize = 0;
    while i < v.len()
        invariant
            i <= v.len(),
            s@ == v@.take(i as int),
        decreases v.len() - i,
    {
        s.push(v[i]);
        i += 1;
    }
    s
}

/// Appends `tail` to `out`.
pub fn append(out: &mut Vec<char>, tail: &[char])
    ensures
        final(out)@ == old(out)@ + tail@,
{
    let mut i: usize = 0;
    while i < tail.len()
        invariant
            i <= tail.len(),
            out@ == old(out)@ + tail@.take(i as int),
        decreases tail.len() - i,
    {
        out.push(tail[i]);
        i += 1;
    }
}

/// The characters of `s` from `from` up to `to`.
pub fn slice_of(s: &[char], from: usize, to: usize) -> (r: Vec<char>)
    requires
        from <= to <= s.len(),
    ensures
        r@ == s@.subrange(from as int, to as int),
{
    let mut r: Vec<char> = Vec::new();
    let mut i: usize = from;
    while i < to
        invariant
            from <= i <= to <= s.len(),
            r@ == s@.subrange(from as int, i as int),
        decreases to - i,
    {
        r.push(s[i]);
        i += 1;
    }
    r
}

/// Whether `p` stands in `s` at position `i`.
pub fn matches_at(s: &[char], p: &[char], i: usize) -> (r: bool)
    ensures
        r == occurs_at(s@, p@, i as int),
{
    if i > s.len() || p.len() > s.len() - i {
        return false;
    }
    let mut k: usize = 0;
    while k < p.len()
        invariant
            k <= p.len(),
            i + p.len() <= s.len(),
            s@.subrange(i as int, i + k) == p@.take(k as int),
        decreases p.len() - k,
    {
        if s[i + k] != p[k] {
            assert(s@.subrange(i as int, i + p.len())[k as int] != p@[k as int]);
            return false;
        }
        assert(s@.subrange(i as int, i + k + 1) == s@.subrange(i as int, i + k).push(s@[i + k]));
        assert(p@.take(k + 1) == p@.take(k as int).push(p@[k as int]));
        k += 1;
    }
    assert(p@.take(p.len() as int) == p@);
    true
}

/// Whether `s` begins with `p`.
pub fn starts_with(s: &[char], p: &[char]) -> (r: bool)
    ensures
        r == p@.is_prefix_of(s@),
{
    matches_at(s, p, 0)
}

/// Whether `s` ends with `p`.
pub fn ends_with(s: &[char], p: &[char]) -> (r: bool)
    ensures
        r == p@.is_suffix_of(s@),
{
    if p.len() > s.len() {
        return false;
    }
    matches_at(s, p, s.len() - p.len())
}

/// The first position at or after `from` where `p` stands in `s`.
pub fn find(s: &[char], p: &[char], from: usize) -> (r: Option<usize>)
    ensures
        position(r) == find_from(s@, p@, from as int),
{
    if from > s.len() || p.len() > s.len() - from {
        return None;
    }
    let last: usize = s.len() - p.len();
    let mut i: usize = from;
    loop
        invariant
            from <= i <= last,
            last == s.len() - p.len(),
            find_from(s@, p@, from as int) == find_from(s@, p@, i as int),
        decreases last - i,
    {
        if matches_at(s, p, i) {
            return Some(i);
        }
        if i == last {
            assert(find_from(s@, p@, i + 1) is None);
            return None;
        }
        i += 1;
    }
}

/// Whether `p` stands somewhere in `s`.
pub fn contains(s: &[char], p: &[char]) -> (r: bool)
    ensures
        r == has_infix(s@, p@),
{
    find(s, p, 0).is_some()
}

/// `s` without leading and trailing white space.
pub fn trim(s: &[char]) -> (r: Vec<char>)
    ensures
        r@ == trimmed(s@),
{
    let mut a: usize = 0;
    assert(s@.skip(0) == s@);
    while a < s.len() && is_whitespace(s[a])
        invariant
            a <= s.len(),
            trimmed_start(s@) == trimmed_start(s@.skip(a as int)),
        decreases s.len() - a,
    {
        assert(s@.skip(a as int).skip(1) == s@.skip(a + 1));
        a += 1;
    }
    assert(trimmed_start(s@) == s@.skip(a as int));
    let mut b: usize = s.len();
    assert(s@.subrange(a as int, b as int) == s@.skip(a as int));
    while b > a && is_whitespace(s[b - 1])
        invariant
            a <= b <= s.len(),
            trimmed(s@) == trimmed_end(s@.subrange(a as int, b as int)),
        decreases b,
    {
        assert(s@.subrange(a as int, b as int).drop_last() == s@.subrange(a as int, b - 1));
        b -= 1;
    }
    slice_of(s, a, b)
}

/// The lines of a text.
pub fn split_lines(text: &[char]) -> (lines: Vec<Vec<char>>)
    ensures
        line_views(lines@) == lines_of(text@),
{
    let feed: Vec<char> = vec!['\n'];
    let mut lines: Vec<Vec<char>> = Vec::new();
    let mut pos: usize = 0;
    assert(text@.skip(0) == text@);
    assert(line_views(lines@) + lines_of(text@) == lines_of(text@));
    while pos < text.len()
        invariant
            pos <= text.len(),
            feed@ == seq!['\n'],
            lines_of(text@) == line_views(lines@) + lines_of(text@.skip(pos as int)),
        decreases text.len() - pos,
    {
        let ghost left = text@.skip(pos as int);
        let ghost before = line_views(lines@);
        proof {
            lemma_find_in_rest(text@, feed@, pos as int, pos as int);
            lemma_find_from(text@, feed@, pos as int);
        }
        match find(text, feed.as_slice(), pos) {
            Some(end) => {
                let cut: usize = if end > pos && text[end - 1] == '\r' {
                    end - 1
                } else {
                    end
                };
                let line = slice_of(text, pos, cut);
                assert(left.take(end - pos) == text@.subrange(pos as int, end as int));
                assert(line@ == without_return(left.take(end - pos)));
                assert(left.skip(end - pos + 1) == text@.skip(end + 1));
                lines.push(line);
                assert(line_views(lines@) == before + seq![line@]);
                pos = end + 1;
            },
            None => {
                let line = slice_of(text, pos, text.len());
                assert(line@ == left);
                lines.push(line);
                assert(line_views(lines@) == before + seq![line@]);
                pos = text.len();
                assert(text@.skip(pos as int).len() == 0);
            },
        }
    }
    assert(line_views(lines@) + Seq::<Seq<char>>::empty() == line_views(lines@));
    lines
}

} // verus!
