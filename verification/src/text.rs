//! Character-level text helpers shared by the parser and the encoder.
//!
//! Text is handled as a sequence of `char`s: a `&str` is turned into a
//! `Vec<char>` once, scanned with verified loops, and turned back into a
//! `String` where a string is needed.

use vstd::prelude::*;

verus! {

/// `String::push` appends one character to the end of the string.
pub assume_specification[ String::push ](s: &mut String, c: char)
    ensures
        final(s)@ == old(s)@.push(c),
;

/// The characters of `s`, in order.
pub fn to_chars(s: &str) -> (v: Vec<char>)
    ensures
        v@ == s@,
{
    let mut v: Vec<char> = Vec::new();
    for c in it: s.chars()
        invariant
            it.seq() == s@,
            v@ == s@.subrange(0, it.index() as int),
    {
        v.push(c);
        assert(s@.subrange(0, it.index() + 1) == s@.subrange(0, it.index() as int).push(c));
    }
    assert(s@.subrange(0, s@.len() as int) == s@);
    v
}

/// The string made of `v[from..to]`.
pub fn to_string(v: &Vec<char>, from: usize, to: usize) -> (s: String)
    requires
        from <= to <= v.len(),
    ensures
        s@ == v@.subrange(from as int, to as int),
{
    let mut s = String::new();
    let mut i: usize = from;
    while i < to
        invariant
            from <= i <= to <= v.len(),
            s@ == v@.subrange(from as int, i as int),
        decreases to - i,
    {
        s.push(v[i]);
        i += 1;
    }
    s
}

/// The string made of all of `v`.
pub fn string_of(v: &Vec<char>) -> (s: String)
    ensures
        s@ == v@,
{
    let s = to_string(v, 0, v.len());
    assert(v@.subrange(0, v.len() as int) == v@);
    s
}

/// Appends all of `src` to `dst`.
pub fn append_chars(dst: &mut Vec<char>, src: &Vec<char>)
    ensures
        final(dst)@ == old(dst)@ + src@,
{
    let mut i: usize = 0;
    while i < src.len()
        invariant
            i <= src.len(),
            dst@ == old(dst)@ + src@.subrange(0, i as int),
        decreases src.len() - i,
    {
        dst.push(src[i]);
        i += 1;
    }
    assert(src@.subrange(0, src.len() as int) == src@);
}

/// Appends the characters of `src` to `dst`.
pub fn append_str(dst: &mut Vec<char>, src: &str)
    ensures
        final(dst)@ == old(dst)@ + src@,
{
    let chars = to_chars(src);
    append_chars(dst, &chars);
}

/// The slice `v[from..to]` as a vector of its own.
pub fn slice_of(v: &Vec<char>, from: usize, to: usize) -> (r: Vec<char>)
    requires
        from <= to <= v.len(),
    ensures
        r@ == v@.subrange(from as int, to as int),
{
    let mut r: Vec<char> = Vec::new();
    let mut i: usize = from;
    while i < to
        invariant
            from <= i <= to <= v.len(),
            r@ == v@.subrange(from as int, i as int),
        decreases to - i,
    {
        r.push(v[i]);
        i += 1;
    }
    r
}

/// Whether two character vectors hold the same characters.
pub fn chars_eq(a: &Vec<char>, b: &Vec<char>) -> (r: bool)
    ensures
        r == (a@ == b@),
{
    if a.len() != b.len() {
        return false;
    }
    let mut i: usize = 0;
    while i < a.len()
        invariant
            a.len() == b.len(),
            i <= a.len(),
            a@.subrange(0, i as int) == b@.subrange(0, i as int),
        decreases a.len() - i,
    {
        if a[i] != b[i] {
            return false;
        }
        assert(a@.subrange(0, i + 1) == a@.subrange(0, i as int).push(a@[i as int]));
        assert(b@.subrange(0, i + 1) == b@.subrange(0, i as int).push(b@[i as int]));
        i += 1;
    }
    assert(a@.subrange(0, a.len() as int) == a@);
    assert(b@.subrange(0, b.len() as int) == b@);
    true
}

// ---------------------------------------------------------------------
// Character classes
// ---------------------------------------------------------------------

/// ASCII decimal digit.
pub open spec fn is_digit(c: char) -> bool {
    '0' <= c && c <= '9'
}

pub fn is_ascii_digit(c: char) -> (b: bool)
    ensures
        b == is_digit(c),
{
    '0' <= c && c <= '9'
}

/// Unicode white space (the `White_Space` property).
pub open spec fn is_space(c: char) -> bool {
    let u = c as u32;
    (0x09 <= u && u <= 0x0D) || u == 0x20 || u == 0x85 || u == 0xA0 || u == 0x1680 || (0x2000 <= u
        && u <= 0x200A) || u == 0x2028 || u == 0x2029 || u == 0x202F || u == 0x205F || u == 0x3000
}

pub fn is_whitespace(c: char) -> (b: bool)
    ensures
        b == is_space(c),
{
    let u: u32 = c as u32;
    (0x09 <= u && u <= 0x0D) || u == 0x20 || u == 0x85 || u == 0xA0 || u == 0x1680 || (0x2000 <= u
        && u <= 0x200A) || u == 0x2028 || u == 0x2029 || u == 0x202F || u == 0x205F || u == 0x3000
}

/// Printable ASCII: a graphic character or the space.
pub open spec fn is_printable_ascii(c: char) -> bool {
    0x20 <= c as u32 && c as u32 <= 0x7E
}

// ---------------------------------------------------------------------
// Trimming
// ---------------------------------------------------------------------

/// The first index at or after `i` that holds no white space, or the length.
pub open spec fn skip_spaces(s: Seq<char>, i: int) -> int
    decreases s.len() - i,
{
    if 0 <= i < s.len() && is_space(s[i]) {
        skip_spaces(s, i + 1)
    } else {
        i
    }
}

/// The end of `s[lo..j]` once the white space at its end is taken off.
pub open spec fn back_spaces(s: Seq<char>, lo: int, j: int) -> int
    decreases j - lo,
{
    if 0 <= lo < j <= s.len() && is_space(s[j - 1]) {
        back_spaces(s, lo, j - 1)
    } else {
        j
    }
}

/// `s` without the white space at its start and at its end.
pub open spec fn trimmed(s: Seq<char>) -> Seq<char> {
    let a = skip_spaces(s, 0);
    s.subrange(a, back_spaces(s, a, s.len() as int))
}

/// `v` without the white space at its start and at its end.
pub fn trim(v: &Vec<char>) -> (r: Vec<char>)
    ensures
        r@ == trimmed(v@),
{
    let n = v.len();
    let mut a: usize = 0;
    while a < n && is_whitespace(v[a])
        invariant
            n == v.len(),
            a <= n,
            skip_spaces(v@, 0) == skip_spaces(v@, a as int),
        decreases n - a,
    {
        a += 1;
    }
    let mut b: usize = n;
    while a < b && is_whitespace(v[b - 1])
        invariant
            n == v.len(),
            a <= b <= n,
            back_spaces(v@, a as int, n as int) == back_spaces(v@, a as int, b as int),
        decreases b,
    {
        b -= 1;
    }
    slice_of(v, a, b)
}

// ---------------------------------------------------------------------
// Searching
// ---------------------------------------------------------------------

/// `pat` stands in `s` at index `i`.
pub open spec fn occurs_at(s: Seq<char>, pat: Seq<char>, i: int) -> bool {
    0 <= i && i + pat.len() <= s.len() && s.subrange(i, i + pat.len()) == pat
}

/// `pat` stands somewhere in `s`.
pub open spec fn contains(s: Seq<char>, pat: Seq<char>) -> bool {
    exists|i: int| occurs_at(s, pat, i)
}

/// The first index at or after `from` where `pat` stands in `s`, or the length
/// of `s` where there is none.
pub open spec fn find_from(s: Seq<char>, pat: Seq<char>, from: int) -> int
    decreases s.len() - from,
{
    if from < 0 || from >= s.len() {
        if occurs_at(s, pat, from) {
            from
        } else {
            s.len() as int
        }
    } else if occurs_at(s, pat, from) {
        from
    } else {
        find_from(s, pat, from + 1)
    }
}

pub proof fn lemma_find_from(s: Seq<char>, pat: Seq<char>, from: int)
    requires
        0 <= from <= s.len(),
    ensures
        from <= find_from(s, pat, from) <= s.len(),
        forall|i: int| from <= i < find_from(s, pat, from) ==> !occurs_at(s, pat, i),
        find_from(s, pat, from) < s.len() ==> occurs_at(s, pat, find_from(s, pat, from)),
        (exists|i: int| from <= i && occurs_at(s, pat, i)) <==> occurs_at(
            s,
            pat,
            find_from(s, pat, from),
        ),
    decreases s.len() - from,
{
    if from < s.len() && !occurs_at(s, pat, from) {
        lemma_find_from(s, pat, from + 1);
    }
    if !occurs_at(s, pat, find_from(s, pat, from)) {
        assert forall|i: int| from <= i implies !occurs_at(s, pat, i) by {
            if i >= find_from(s, pat, from) {
                if occurs_at(s, pat, i) {
                    assert(i <= s.len());
                    assert(i == s.len());
                    assert(find_from(s, pat, from) == s.len());
                }
            }
        }
    }
}

/// Whether `pat` stands in `s` at index `i`.
pub fn matches_at(s: &Vec<char>, pat: &Vec<char>, i: usize) -> (r: bool)
    ensures
        r == occurs_at(s@, pat@, i as int),
{
    if pat.len() > s.len() || i > s.len() - pat.len() {
        return false;
    }
    let mut k: usize = 0;
    while k < pat.len()
        invariant
            i + pat.len() <= s.len(),
            k <= pat.len(),
            s@.subrange(i as int, i + k) == pat@.subrange(0, k as int),
        decreases pat.len() - k,
    {
        if s[i + k] != pat[k] {
            assert(s@.subrange(i as int, i + pat.len())[k as int] != pat@[k as int]);
            return false;
        }
        assert(s@.subrange(i as int, i + k + 1) == s@.subrange(i as int, i + k).push(
            s@[i + k],
        ));
        assert(pat@.subrange(0, k + 1) == pat@.subrange(0, k as int).push(pat@[k as int]));
        k += 1;
    }
    assert(pat@.subrange(0, pat.len() as int) == pat@);
    true
}

/// The first index at or after `from` where `pat` stands in `s`; the length of
/// `s` where there is none.
pub fn find(s: &Vec<char>, pat: &Vec<char>, from: usize) -> (r: usize)
    requires
        from <= s.len(),
    ensures
        r == find_from(s@, pat@, from as int),
        from <= r <= s.len(),
{
    let mut i: usize = from;
    while i < s.len()
        invariant
            from <= i <= s.len(),
            find_from(s@, pat@, from as int) == find_from(s@, pat@, i as int),
        decreases s.len() - i,
    {
        if matches_at(s, pat, i) {
            return i;
        }
        i += 1;
    }
    if matches_at(s, pat, i) {
        return i;
    }
    i
}

/// Whether `pat` stands somewhere in `s`.
pub fn has(s: &Vec<char>, pat: &Vec<char>) -> (r: bool)
    ensures
        r == contains(s@, pat@),
{
    let i = find(s, pat, 0);
    proof {
        lemma_find_from(s@, pat@, 0);
        if occurs_at(s@, pat@, i as int) {
            assert(contains(s@, pat@));
        }
        if contains(s@, pat@) {
            let w = choose|w: int| occurs_at(s@, pat@, w);
            assert(0 <= w && occurs_at(s@, pat@, w));
        }
    }
    matches_at(s, pat, i)
}

/// Whether the text `pat` stands somewhere in `s`.
pub fn has_str(s: &Vec<char>, pat: &str) -> (r: bool)
    ensures
        r == contains(s@, pat@),
{
    let p = to_chars(pat);
    has(s, &p)
}

// ---------------------------------------------------------------------
// Lines
// ---------------------------------------------------------------------

/// The index of the first line feed at or after `i`, or the length.
pub open spec fn line_end(s: Seq<char>, i: int) -> int
    decreases s.len() - i,
{
    if 0 <= i < s.len() && s[i] != '\n' {
        line_end(s, i + 1)
    } else {
        i
    }
}

pub proof fn lemma_line_end_bounds(s: Seq<char>, i: int)
    requires
        0 <= i <= s.len(),
    ensures
        i <= line_end(s, i) <= s.len(),
        line_end(s, i) < s.len() ==> s[line_end(s, i)] == '\n',
        forall|k: int| i <= k < line_end(s, i) ==> s[k] != '\n',
    decreases s.len() - i,
{
    if i < s.len() && s[i] != '\n' {
        lemma_line_end_bounds(s, i + 1);
    }
}

/// The line `s[start..end]`, where `end` is the index of its line feed or the
/// length of `s`: a carriage return just before the line feed is dropped.
pub open spec fn line_text(s: Seq<char>, start: int, end: int) -> Seq<char> {
    if end < s.len() && start < end && s[end - 1] == '\r' {
        s.subrange(start, end - 1)
    } else {
        s.subrange(start, end)
    }
}

/// The lines of `s` from index `start` on.
pub open spec fn lines_from(s: Seq<char>, start: int) -> Seq<Seq<char>>
    decreases s.len() - start,
{
    if start < 0 || start >= s.len() {
        Seq::empty()
    } else {
        let e = line_end(s, start);
        if start <= e < s.len() {
            seq![line_text(s, start, e)] + lines_from(s, e + 1)
        } else {
            seq![line_text(s, start, e)]
        }
    }
}

/// The lines of `s`: it is cut at each line feed, a carriage return before a
/// line feed goes with it, and a line feed at the very end opens no new line.
pub open spec fn lines(s: Seq<char>) -> Seq<Seq<char>> {
    lines_from(s, 0)
}

/// What each vector of `r` holds.
pub open spec fn views(r: Seq<Vec<char>>) -> Seq<Seq<char>> {
    r.map_values(|l: Vec<char>| l@)
}

/// The lines of `v`.
pub fn split_lines(v: &Vec<char>) -> (r: Vec<Vec<char>>)
    ensures
        views(r@) == lines(v@),
{
    let n = v.len();
    let mut r: Vec<Vec<char>> = Vec::new();
    let mut start: usize = 0;
    while start < n
        invariant
            n == v.len(),
            start <= n,
            views(r@) + lines_from(v@, start as int) == lines(v@),
        decreases n - start,
    {
        let mut e: usize = start;
        while e < n && v[e] != '\n'
            invariant
                n == v.len(),
                start <= e <= n,
                line_end(v@, start as int) == line_end(v@, e as int),
            decreases n - e,
        {
            e += 1;
        }
        let stop: usize = if e < n && start < e && v[e - 1] == '\r' {
            e - 1
        } else {
            e
        };
        let line = slice_of(v, start, stop);
        proof {
            assert(line@ == line_text(v@, start as int, e as int));
            assert(views(r@.push(line)) == views(r@) + seq![line@]);
            lemma_line_end_bounds(v@, start as int);
            assert(lines_from(v@, e + 1) == Seq::<Seq<char>>::empty() <== e >= n);
            assert(seq![line@] + Seq::<Seq<char>>::empty() == seq![line@]);
            assert(lines_from(v@, start as int) == seq![line@] + lines_from(v@, e + 1));
            assert((views(r@) + seq![line@]) + lines_from(v@, e + 1) == views(r@) + (seq![
                line@,
            ] + lines_from(v@, e + 1)));
        }
        r.push(line);
        if e < n {
            start = e + 1;
        } else {
            start = n;
            assert(lines_from(v@, e + 1) == lines_from(v@, n as int));
        }
    }
    assert(views(r@) + Seq::<Seq<char>>::empty() == views(r@));
    r
}

/// Whether `t` holds one of `phrases`.
pub open spec fn contains_any(t: Seq<char>, phrases: Seq<Seq<char>>) -> bool {
    exists|k: int| 0 <= k < phrases.len() && contains(t, #[trigger] phrases[k])
}

/// What each text of `v` holds.
pub open spec fn str_views(v: Seq<&'static str>) -> Seq<Seq<char>> {
    v.map_values(|p: &'static str| p@)
}

/// Whether `t` holds one of `phrases`.
pub fn has_any(t: &Vec<char>, phrases: &Vec<&'static str>) -> (r: bool)
    ensures
        r == contains_any(t@, str_views(phrases@)),
{
    let mut k: usize = 0;
    while k < phrases.len()
        invariant
            k <= phrases.len(),
            forall|j: int| 0 <= j < k ==> !contains(t@, #[trigger] str_views(phrases@)[j]),
        decreases phrases.len() - k,
    {
        assert(str_views(phrases@)[k as int] == phrases@[k as int]@);
        if has_str(t, phrases[k]) {
            return true;
        }
        k += 1;
    }
    false
}

} // verus!
