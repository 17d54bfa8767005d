//! Character-level building blocks: white space, trimming, line splitting,
//! prefix and substring tests, all stated over `Seq<char>`.
use vstd::prelude::*;
use crate::seqs::{lemma_position_is, position};

verus! {

/// Whether `c` is a white-space character: one of the code points that carry
/// the Unicode property `White_Space`.
pub open spec fn is_white_space(c: char) -> bool {
    let n = c as u32;
    (0x09 <= n && n <= 0x0D) || n == 0x20 || n == 0x85 || n == 0xA0 || n == 0x1680 || (0x2000 <= n
        && n <= 0x200A) || n == 0x2028 || n == 0x2029 || n == 0x202F || n == 0x205F || n == 0x3000
}

/// `s` without its leading white space.
pub open spec fn trim_start(s: Seq<char>) -> Seq<char>
    decreases s.len(),
{
    if s.len() > 0 && is_white_space(s[0]) {
        trim_start(s.drop_first())
    } else {
        s
    }
}

/// `s` without its trailing white space.
pub open spec fn trim_end(s: Seq<char>) -> Seq<char>
    decreases s.len(),
{
    if s.len() > 0 && is_white_space(s.last()) {
        trim_end(s.drop_last())
    } else {
        s
    }
}

/// `s` without surrounding white space.
pub open spec fn trim(s: Seq<char>) -> Seq<char> {
    trim_end(trim_start(s))
}

/// Whether `s` holds nothing but white space.
pub open spec fn is_blank(s: Seq<char>) -> bool {
    trim(s).len() == 0
}

/// Whether `c` occurs in `s`.
pub open spec fn has_char(s: Seq<char>, c: char) -> bool {
    position(s, c) < s.len()
}

/// What follows the first occurrence of `c` in `s`; empty where there is none.
pub open spec fn after_first(s: Seq<char>, c: char) -> Seq<char> {
    if has_char(s, c) {
        s.skip(position(s, c) + 1)
    } else {
        Seq::empty()
    }
}

/// The lines of `s`: the runs of characters between line feeds, in order.
/// A text without a line feed is one line.
pub open spec fn split_lines(s: Seq<char>) -> Seq<Seq<char>>
    decreases s.len(),
{
    let n = position(s, '\n');
    if 0 <= n < s.len() {
        seq![s.take(n)] + split_lines(s.skip(n + 1))
    } else {
        seq![s]
    }
}

/// Whether `pattern` occurs in `s` as a contiguous run.
pub open spec fn has_substring(s: Seq<char>, pattern: Seq<char>) -> bool {
    exists|i: int|
        0 <= i <= s.len() - pattern.len() && #[trigger] s.subrange(i, i + pattern.len())
            == pattern
}

/// `s` without the `c`s at its end.
pub open spec fn strip_trailing(s: Seq<char>, c: char) -> Seq<char>
    decreases s.len(),
{
    if s.len() > 0 && s.last() == c {
        strip_trailing(s.drop_last(), c)
    } else {
        s
    }
}

/// Whether `c` is white space.
pub fn white_space(c: char) -> (b: bool)
    ensures
        b == is_white_space(c),
{
    let n: u32 = c as u32;
    (0x09 <= n && n <= 0x0D) || n == 0x20 || n == 0x85 || n == 0xA0 || n == 0x1680 || (0x2000 <= n
        && n <= 0x200A) || n == 0x2028 || n == 0x2029 || n == 0x202F || n == 0x205F || n == 0x3000
}

/// The characters of `s`.
pub fn to_chars(s: &str) -> (v: Vec<char>)
    ensures
        v@ == s@,
{
    let mut v: Vec<char> = Vec::new();
    for c in it: s.chars()
        invariant
            it.seq() == s@,
            v@ == it.seq().take(it.index()),
    {
        v.push(c);
    }
    v
}

/// `String::push` appends one character to the string.
pub assume_specification[ String::push ](s: &mut String, ch: char)
    ensures
        final(s)@ == old(s)@.push(ch),
;

/// The string made of `v[from..to]`.
pub fn from_chars(v: &Vec<char>, from: usize, to: usize) -> (s: String)
    requires
        from <= to <= v.len(),
    ensures
        s@ == v@.subrange(from as int, to as int),
{
    let mut s = String::new();
    let mut i: usize = from;
    while i < to
        invariant
            from <= i <= to <= v.len(),
            s@ == v@.subrange(from as int, i as int),
        decreases to - i,
    {
        s.push(v[i]);
        i += 1;
    }
    s
}

/// Narrows `v[from..to]` to what `trim` leaves of it.
pub fn trim_span(v: &Vec<char>, from: usize, to: usize) -> (r: (usize, usize))
    requires
        from <= to <= v.len(),
    ensures
        from <= r.0 <= r.1 <= to,
        v@.subrange(r.0 as int, r.1 as int) == trim(v@.subrange(from as int, to as int)),
{
    let mut a: usize = from;
    while a < to && white_space(v[a])
        invariant
            from <= a <= to <= v.len(),
            trim_start(v@.subrange(from as int, to as int)) == trim_start(
                v@.subrange(a as int, to as int),
            ),
        decreases to - a,
    {
        assert(v@.subrange(a as int, to as int).drop_first() == v@.subrange(a + 1, to as int));
        a += 1;
    }
    assert(trim_start(v@.subrange(a as int, to as int)) == v@.subrange(a as int, to as int));
    let mut b: usize = to;
    while a < b && white_space(v[b - 1])
        invariant
            a <= b <= to <= v.len(),
            trim_end(v@.subrange(a as int, to as int)) == trim_end(v@.subrange(a as int, b as int)),
        decreases b - a,
    {
        assert(v@.subrange(a as int, b as int).drop_last() == v@.subrange(a as int, b - 1));
        b -= 1;
    }
    assert(trim_end(v@.subrange(a as int, b as int)) == v@.subrange(a as int, b as int));
    (a, b)
}

/// Whether `v[from..to]` begins with `pattern`.
pub fn starts_with(v: &Vec<char>, from: usize, to: usize, pattern: &Vec<char>) -> (b: bool)
    requires
        from <= to <= v.len(),
    ensures
        b == pattern@.is_prefix_of(v@.subrange(from as int, to as int)),
{
    if pattern.len() > to - from {
        return false;
    }
    let mut i: usize = 0;
    while i < pattern.len()
        invariant
            from <= to <= v.len(),
            pattern.len() <= to - from,
            i <= pattern.len(),
            forall|k: int| 0 <= k < i ==> pattern@[k] == v@[from + k],
        decreases pattern.len() - i,
    {
        if pattern[i] != v[from + i] {
            assert(v@.subrange(from as int, to as int)[i as int] == v@[from + i]);
            return false;
        }
        i += 1;
    }
    assert(pattern@ =~= v@.subrange(from as int, to as int).subrange(0, pattern@.len() as int));
    true
}

/// The index in `v[from..to]` of the first `c`, counted from `from`, or
/// `to - from` where there is none.
pub fn find_char(v: &Vec<char>, from: usize, to: usize, c: char) -> (k: usize)
    requires
        from <= to <= v.len(),
    ensures
        k == position(v@.subrange(from as int, to as int), c),
        k <= to - from,
{
    let mut i: usize = from;
    while i < to && v[i] != c
        invariant
            from <= i <= to <= v.len(),
            forall|j: int| from <= j < i ==> v@[j] != c,
        decreases to - i,
    {
        i += 1;
    }
    proof {
        lemma_position_is(v@.subrange(from as int, to as int), c, i - from);
    }
    i - from
}

/// Whether `pattern` occurs in `v[from..to]`.
pub fn contains(v: &Vec<char>, from: usize, to: usize, pattern: &Vec<char>) -> (b: bool)
    requires
        from <= to <= v.len(),
    ensures
        b == has_substring(v@.subrange(from as int, to as int), pattern@),
{
    let ghost s = v@.subrange(from as int, to as int);
    if pattern.len() > to - from {
        return false;
    }
    let last: usize = to - pattern.len();
    let mut i: usize = from;
    while i <= last
        invariant
            from <= i <= last + 1,
            last == to - pattern.len(),
            from <= to <= v.len(),
            s == v@.subrange(from as int, to as int),
            forall|j: int| 0 <= j < i - from ==> #[trigger] s.subrange(j, j + pattern@.len()) != pattern@,
        decreases last + 1 - i,
    {
        if starts_with(v, i, to, pattern) {
            assert(s.subrange(i - from, i - from + pattern@.len()) =~= v@.subrange(
                i as int,
                to as int,
            ).subrange(0, pattern@.len() as int));
            return true;
        }
        assert(s.subrange(i - from, i - from + pattern@.len()) =~= v@.subrange(
            i as int,
            to as int,
        ).subrange(0, pattern@.len() as int));
        i += 1;
    }
    false
}

/// The spans of the lines of `v`, in order.
pub fn line_spans(v: &Vec<char>) -> (spans: Vec<(usize, usize)>)
    ensures
        spans@.len() == split_lines(v@).len(),
        forall|i: int|
            0 <= i < spans@.len() ==> {
                &&& (#[trigger] spans@[i]).0 <= spans@[i].1 <= v.len()
                &&& v@.subrange(spans@[i].0 as int, spans@[i].1 as int) == split_lines(v@)[i]
            },
{
    let mut spans: Vec<(usize, usize)> = Vec::new();
    let mut start: usize = 0;
    let ghost mut done: Seq<Seq<char>> = Seq::empty();
    assert(v@.skip(0) == v@);
    loop
        invariant_except_break
            split_lines(v@) == done + split_lines(v@.skip(start as int)),
        invariant
            start <= v.len(),
            spans@.len() == done.len(),
            forall|i: int|
                0 <= i < spans@.len() ==> {
                    &&& (#[trigger] spans@[i]).0 <= spans@[i].1 <= v.len()
                    &&& v@.subrange(spans@[i].0 as int, spans@[i].1 as int) == done[i]
                },
        ensures
            spans@.len() == split_lines(v@).len(),
            forall|i: int|
                0 <= i < spans@.len() ==> {
                    &&& (#[trigger] spans@[i]).0 <= spans@[i].1 <= v.len()
                    &&& v@.subrange(spans@[i].0 as int, spans@[i].1 as int) == split_lines(v@)[i]
                },
        decreases v.len() - start,
    {
        let ghost rest = v@.skip(start as int);
        assert(rest == v@.subrange(start as int, v.len() as int));
        let n = find_char(v, start, v.len(), '\n');
        let end: usize = start + n;
        assert(v@.subrange(start as int, end as int) == rest.take(n as int));
        spans.push((start, end));
        if end < v.len() {
            proof {
                assert(rest.skip(n + 1) == v@.skip(end + 1));
                done = done.push(rest.take(n as int));
                assert(split_lines(rest) == seq![rest.take(n as int)] + split_lines(
                    rest.skip(n + 1),
                ));
            }
            start = end + 1;
        } else {
            proof {
                assert(rest.take(n as int) == rest);
                done = done.push(rest);
                assert(split_lines(rest) == seq![rest]);
                assert(split_lines(v@) == done);
            }
            break;
        }
    }
    spans
}

/// The lower-case form of a text, as `str::to_lowercase` gives it.
pub uninterp spec fn lowercase(s: Seq<char>) -> Seq<char>;

/// `str::to_lowercase` returns the lower-case form of the text.
pub assume_specification[ str::to_lowercase ](s: &str) -> (r: String)
    ensures
        r@ == lowercase(s@),
;

/// Whether `v` and `w` hold the same characters.
pub fn same_chars(v: &Vec<char>, w: &Vec<char>) -> (b: bool)
    ensures
        b == (v@ == w@),
{
    if v.len() != w.len() {
        return false;
    }
    let mut i: usize = 0;
    while i < v.len()
        invariant
            v.len() == w.len(),
            i <= v.len(),
            forall|k: int| 0 <= k < i ==> v@[k] == w@[k],
        decreases v.len() - i,
    {
        if v[i] != w[i] {
            return false;
        }
        i += 1;
    }
    assert(v@ =~= w@);
    true
}

/// Whether `a` and `b` are the same text.
pub fn same_text(a: &str, b: &str) -> (r: bool)
    ensures
        r == (a@ == b@),
{
    let v = to_chars(a);
    let w = to_chars(b);
    same_chars(&v, &w)
}

/// Whether `s` holds nothing but white space.
pub fn blank(s: &str) -> (b: bool)
    ensures
        b == is_blank(s@),
{
    let v = to_chars(s);
    assert(v@.subrange(0, v.len() as int) == v@);
    let (a, b) = trim_span(&v, 0, v.len());
    a == b
}

/// The end of `v[from..to]` once the `c`s at its end are left out.
pub fn strip_trailing_span(v: &Vec<char>, from: usize, to: usize, c: char) -> (end: usize)
    requires
        from <= to <= v.len(),
    ensures
        from <= end <= to,
        v@.subrange(from as int, end as int) == strip_trailing(
            v@.subrange(from as int, to as int),
            c,
        ),
{
    let mut b: usize = to;
    while from < b && v[b - 1] == c
        invariant
            from <= b <= to <= v.len(),
            strip_trailing(v@.subrange(from as int, to as int), c) == strip_trailing(
                v@.subrange(from as int, b as int),
                c,
            ),
        decreases b - from,
    {
        assert(v@.subrange(from as int, b as int).drop_last() == v@.subrange(from as int, b - 1));
        b -= 1;
    }
    b
}

} // verus!
