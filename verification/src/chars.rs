//! Characters, lines and trimming: the lexical layer under the segmenter.

use vstd::prelude::*;

verus! {

/// `0` to `9`.
pub open spec fn is_dec_digit(c: char) -> bool {
    '0' <= c <= '9'
}

/// `0` or `1`.
pub open spec fn is_bin_digit(c: char) -> bool {
    c == '0' || c == '1'
}

/// `0` to `9`, `a` to `f` or `A` to `F`.
pub open spec fn is_hex_digit(c: char) -> bool {
    ('0' <= c <= '9') || ('a' <= c <= 'f') || ('A' <= c <= 'F')
}

/// An ASCII letter or digit.
pub open spec fn is_ascii_alnum(c: char) -> bool {
    ('0' <= c <= '9') || ('a' <= c <= 'z') || ('A' <= c <= 'Z')
}

/// A character with the Unicode property `White_Space`.
pub open spec fn is_space(c: char) -> bool {
    let u = c as u32;
    (0x09 <= u <= 0x0d) || u == 0x20 || u == 0x85 || u == 0xa0 || u == 0x1680 || (0x2000 <= u
        <= 0x200a) || u == 0x2028 || u == 0x2029 || u == 0x202f || u == 0x205f || u == 0x3000
}

/// The value of a digit in any radix up to sixteen; zero for other characters.
pub open spec fn digit_value(c: char) -> nat {
    if '0' <= c <= '9' {
        (c as u32 - '0' as u32) as nat
    } else if 'a' <= c <= 'f' {
        (c as u32 - 'a' as u32 + 10) as nat
    } else if 'A' <= c <= 'F' {
        (c as u32 - 'A' as u32 + 10) as nat
    } else {
        0
    }
}

/// Every character of `s` from `from` on is a decimal digit.
pub open spec fn all_dec(s: Seq<char>, from: int) -> bool {
    forall|i: int| from <= i < s.len() ==> is_dec_digit(#[trigger] s[i])
}

/// Every character of `s` from `from` on is a binary digit.
pub open spec fn all_bin(s: Seq<char>, from: int) -> bool {
    forall|i: int| from <= i < s.len() ==> is_bin_digit(#[trigger] s[i])
}

/// Every character of `s` from `from` on is a hexadecimal digit.
pub open spec fn all_hex(s: Seq<char>, from: int) -> bool {
    forall|i: int| from <= i < s.len() ==> is_hex_digit(#[trigger] s[i])
}

/// Every character of `s` is an ASCII letter or digit.
pub open spec fn all_alnum(s: Seq<char>) -> bool {
    forall|i: int| 0 <= i < s.len() ==> is_ascii_alnum(#[trigger] s[i])
}

/// Whether `c` is a decimal digit.
#[verifier::when_used_as_spec(is_dec_digit)]
pub fn dec_digit(c: char) -> (b: bool)
    ensures
        b == is_dec_digit(c),
{
    '0' <= c && c <= '9'
}

/// Whether `c` is a binary digit.
#[verifier::when_used_as_spec(is_bin_digit)]
pub fn bin_digit(c: char) -> (b: bool)
    ensures
        b == is_bin_digit(c),
{
    c == '0' || c == '1'
}

/// Whether `c` is a hexadecimal digit.
#[verifier::when_used_as_spec(is_hex_digit)]
pub fn hex_digit(c: char) -> (b: bool)
    ensures
        b == is_hex_digit(c),
{
    ('0' <= c && c <= '9') || ('a' <= c && c <= 'f') || ('A' <= c && c <= 'F')
}

/// Whether `c` is an ASCII letter or digit.
#[verifier::when_used_as_spec(is_ascii_alnum)]
pub fn ascii_alnum(c: char) -> (b: bool)
    ensures
        b == is_ascii_alnum(c),
{
    ('0' <= c && c <= '9') || ('a' <= c && c <= 'z') || ('A' <= c && c <= 'Z')
}

/// Whether `c` is white space.
#[verifier::when_used_as_spec(is_space)]
pub fn space(c: char) -> (b: bool)
    ensures
        b == is_space(c),
{
    let u: u32 = c as u32;
    (0x09 <= u && u <= 0x0d) || u == 0x20 || u == 0x85 || u == 0xa0 || u == 0x1680 || (0x2000 <= u
        && u <= 0x200a) || u == 0x2028 || u == 0x2029 || u == 0x202f || u == 0x205f || u
        == 0x3000
}

/// The value of the digit `c`; zero where `c` is no hexadecimal digit.
pub fn digit(c: char) -> (d: u8)
    ensures
        d == digit_value(c),
        d < 16,
{
    let u: u32 = c as u32;
    if '0' <= c && c <= '9' {
        (u - 0x30) as u8
    } else if 'a' <= c && c <= 'f' {
        (u - 0x61 + 10) as u8
    } else if 'A' <= c && c <= 'F' {
        (u - 0x41 + 10) as u8
    } else {
        0
    }
}

/// Whether every character of `v` from `from` on is a decimal digit.
pub fn all_dec_from(v: &Vec<char>, from: usize) -> (b: bool)
    ensures
        b == all_dec(v@, from as int),
{
    let mut i: usize = from;
    while i < v.len()
        invariant
            from <= i,
            forall|j: int| from <= j < i && j < v.len() ==> is_dec_digit(#[trigger] v@[j]),
        decreases v.len() - i,
    {
        if !dec_digit(v[i]) {
            assert(!is_dec_digit(v@[i as int]));
            return false;
        }
        i += 1;
    }
    true
}

/// Whether every character of `v` from `from` on is a binary digit.
pub fn all_bin_from(v: &Vec<char>, from: usize) -> (b: bool)
    ensures
        b == all_bin(v@, from as int),
{
    let mut i: usize = from;
    while i < v.len()
        invariant
            from <= i,
            forall|j: int| from <= j < i && j < v.len() ==> is_bin_digit(#[trigger] v@[j]),
        decreases v.len() - i,
    {
        if !bin_digit(v[i]) {
            assert(!is_bin_digit(v@[i as int]));
            return false;
        }
        i += 1;
    }
    true
}

/// Whether every character of `v` from `from` on is a hexadecimal digit.
pub fn all_hex_from(v: &Vec<char>, from: usize) -> (b: bool)
    ensures
        b == all_hex(v@, from as int),
{
    let mut i: usize = from;
    while i < v.len()
        invariant
            from <= i,
            forall|j: int| from <= j < i && j < v.len() ==> is_hex_digit(#[trigger] v@[j]),
        decreases v.len() - i,
    {
        if !hex_digit(v[i]) {
            assert(!is_hex_digit(v@[i as int]));
            return false;
        }
        i += 1;
    }
    true
}

/// Whether `v[lo..hi]` is made of ASCII letters and digits.
pub fn all_alnum_in(v: &Vec<char>, lo: usize, hi: usize) -> (b: bool)
    requires
        lo <= hi <= v.len(),
    ensures
        b == all_alnum(v@.subrange(lo as int, hi as int)),
{
    let ghost s = v@.subrange(lo as int, hi as int);
    let mut i: usize = lo;
    while i < hi
        invariant
            lo <= i <= hi <= v.len(),
            s == v@.subrange(lo as int, hi as int),
            forall|j: int| 0 <= j < i - lo ==> is_ascii_alnum(#[trigger] s[j]),
        decreases hi - i,
    {
        if !ascii_alnum(v[i]) {
            assert(!is_ascii_alnum(s[i - lo]));
            return false;
        }
        i += 1;
    }
    true
}

/// The characters of `s`, in order.
pub fn to_chars(s: &str) -> (v: Vec<char>)
    ensures
        v@ == s@,
{
    let mut v: Vec<char> = Vec::new();
    for c in it: s.chars()
        invariant
            v@ == it.seq().take(it.index() as int),
            it.seq() == s@,
    {
        v.push(c);
    }
    v
}

/// The string made of `v[lo..hi]`.
pub fn text_of(v: &Vec<char>, lo: usize, hi: usize) -> (s: String)
    requires
        lo <= hi <= v.len(),
    ensures
        s@ == v@.subrange(lo as int, hi as int),
{
    let mut s = String::new();
    let mut i: usize = lo;
    while i < hi
        invariant
            lo <= i <= hi <= v.len(),
            s@ == v@.subrange(lo as int, i as int),
        decreases hi - i,
    {
        s.push(v[i]);
        i += 1;
        assert(v@.subrange(lo as int, i as int) =~= v@.subrange(lo as int, i - 1).push(
            v@[i - 1],
        ));
    }
    s
}

/// `s` without its leading white space.
pub open spec fn trim_start(s: Seq<char>) -> Seq<char>
    decreases s.len(),
{
    if s.len() > 0 && is_space(s[0]) {
        trim_start(s.drop_first())
    } else {
        s
    }
}

/// `s` without its trailing white space.
pub open spec fn trim_end(s: Seq<char>) -> Seq<char>
    decreases s.len(),
{
    if s.len() > 0 && is_space(s.last()) {
        trim_end(s.drop_last())
    } else {
        s
    }
}

/// `s` without its leading and trailing white space.
pub open spec fn trimmed(s: Seq<char>) -> Seq<char> {
    trim_end(trim_start(s))
}

/// A line that holds nothing but white space.
pub open spec fn is_blank(s: Seq<char>) -> bool {
    trimmed(s).len() == 0
}

/// The first position at or after `from` where `c` stands in `s`, or the
/// length of `s` where there is none.
pub open spec fn find_from(s: Seq<char>, c: char, from: int) -> int
    decreases s.len() - from,
{
    if from >= s.len() {
        s.len() as int
    } else if s[from] == c {
        from
    } else {
        find_from(s, c, from + 1)
    }
}

/// The line `s[from..end]` without the carriage return of a `\r\n` ending.
/// `ended` says that a line feed stands at `end`.
pub open spec fn line_at(s: Seq<char>, from: int, end: int, ended: bool) -> Seq<char> {
    if ended && from < end && s[end - 1] == '\r' {
        s.subrange(from, end - 1)
    } else {
        s.subrange(from, end)
    }
}

/// The lines of `s` from position `from` on.
pub open spec fn lines_from(s: Seq<char>, from: int) -> Seq<Seq<char>>
    decreases s.len() - from,
{
    if from < 0 || from >= s.len() {
        Seq::empty()
    } else {
        let end = find_from(s, '\n', from);
        if from <= end < s.len() {
            seq![line_at(s, from, end, true)] + lines_from(s, end + 1)
        } else {
            seq![line_at(s, from, s.len() as int, false)]
        }
    }
}

/// The lines of `s`. A line ends at a line feed, or at a carriage return
/// directly followed by one; neither belongs to the line. The last line
/// needs no ending, and no empty line follows a final line ending.
pub open spec fn lines_of(s: Seq<char>) -> Seq<Seq<char>> {
    lines_from(s, 0)
}

/// `find_from` stays within `from..=s.len()`, stops at `c` and passes over
/// nothing that is `c`.
pub proof fn lemma_find_from(s: Seq<char>, c: char, from: int)
    requires
        0 <= from <= s.len(),
    ensures
        from <= find_from(s, c, from) <= s.len(),
        find_from(s, c, from) < s.len() ==> s[find_from(s, c, from)] == c,
        forall|i: int| from <= i < find_from(s, c, from) ==> s[i] != c,
    decreases s.len() - from,
{
    if from < s.len() && s[from] != c {
        lemma_find_from(s, c, from + 1);
    }
}

/// A position that holds `c`, with no `c` between `from` and it, is what
/// `find_from` returns; so is the length where no `c` follows `from`.
pub proof fn lemma_find_from_is(s: Seq<char>, c: char, from: int, at: int)
    requires
        0 <= from <= at <= s.len(),
        forall|i: int| from <= i < at ==> s[i] != c,
        at < s.len() ==> s[at] == c,
    ensures
        find_from(s, c, from) == at,
    decreases at - from,
{
    if from < at {
        lemma_find_from_is(s, c, from + 1, at);
    }
}

/// A character that is nowhere in `s` is in none of its lines.
pub proof fn lemma_lines_lack(s: Seq<char>, c: char, from: int)
    requires
        0 <= from,
        !s.contains(c),
    ensures
        forall|i: int|
            0 <= i < lines_from(s, from).len() ==> !(#[trigger] lines_from(s, from)[i]).contains(c),
    decreases s.len() - from,
{
    if from < s.len() {
        lemma_find_from(s, '\n', from);
        let end = find_from(s, '\n', from);
        let first = line_at(s, from, end, end < s.len());
        assert forall|j: int| 0 <= j < first.len() implies first[j] != c by {
            assert(s.contains(first[j]));
        }
        if end < s.len() {
            lemma_lines_lack(s, c, end + 1);
            let rest = lines_from(s, end + 1);
            assert forall|i: int| 0 <= i < lines_from(s, from).len() implies !(
            #[trigger] lines_from(s, from)[i]).contains(c) by {
                if i > 0 {
                    assert(lines_from(s, from)[i] == rest[i - 1]);
                }
            }
        }
    }
}

/// The first position at or after `from` that holds `c`, or the length.
pub fn find_char(v: &Vec<char>, c: char, from: usize) -> (at: usize)
    requires
        from <= v.len(),
    ensures
        at == find_from(v@, c, from as int),
        from <= at <= v.len(),
{
    let mut i: usize = from;
    while i < v.len() && v[i] != c
        invariant
            from <= i <= v.len(),
            forall|j: int| from <= j < i ==> v@[j] != c,
        decreases v.len() - i,
    {
        i += 1;
    }
    proof {
        lemma_find_from_is(v@, c, from as int, i as int);
    }
    i
}

/// The bounds of `v[lo..hi]` without its leading and trailing white space.
pub fn trim_bounds(v: &Vec<char>, lo: usize, hi: usize) -> (r: (usize, usize))
    requires
        lo <= hi <= v.len(),
    ensures
        lo <= r.0 <= r.1 <= hi,
        v@.subrange(r.0 as int, r.1 as int) == trimmed(v@.subrange(lo as int, hi as int)),
{
    let mut a: usize = lo;
    while a < hi && space(v[a])
        invariant
            lo <= a <= hi <= v.len(),
            trim_start(v@.subrange(lo as int, hi as int)) == trim_start(
                v@.subrange(a as int, hi as int),
            ),
        decreases hi - a,
    {
        assert(v@.subrange(a as int, hi as int).drop_first() =~= v@.subrange(a + 1, hi as int));
        a += 1;
    }
    assert(trim_start(v@.subrange(lo as int, hi as int)) == v@.subrange(a as int, hi as int));
    let mut b: usize = hi;
    while a < b && space(v[b - 1])
        invariant
            a <= b <= hi <= v.len(),
            trim_end(v@.subrange(a as int, hi as int)) == trim_end(v@.subrange(a as int, b as int)),
        decreases b - a,
    {
        assert(v@.subrange(a as int, b as int).drop_last() =~= v@.subrange(a as int, b - 1));
        b -= 1;
    }
    (a, b)
}

/// Whether `v` holds nothing but white space.
pub fn blank(v: &Vec<char>) -> (b: bool)
    ensures
        b == is_blank(v@),
{
    let (lo, hi) = trim_bounds(v, 0, v.len());
    assert(v@.subrange(0, v.len() as int) =~= v@);
    lo == hi
}

/// The deep view of a vector of characters is its view.
pub proof fn lemma_chars_deep_view(v: Vec<char>)
    ensures
        v.deep_view() == v@,
{
    assert(v.deep_view() =~= v@);
}

/// Splits `v` into its lines.
pub fn split_lines(v: &Vec<char>) -> (lines: Vec<Vec<char>>)
    ensures
        lines.deep_view() == lines_of(v@),
        forall|i: int| 0 <= i < lines.len() ==> (#[trigger] lines@[i]).len() <= v.len(),
{
    let mut lines: Vec<Vec<char>> = Vec::new();
    let mut from: usize = 0;
    while from < v.len()
        invariant
            from <= v.len(),
            lines_of(v@) == lines.deep_view() + lines_from(v@, from as int),
            forall|i: int| 0 <= i < lines.len() ==> (#[trigger] lines@[i]).len() <= v.len(),
        decreases v.len() - from,
    {
        let end = find_char(v, '\n', from);
        let ended = end < v.len();
        let stop = if ended && from < end && v[end - 1] == '\r' {
            end - 1
        } else {
            end
        };
        let mut line: Vec<char> = Vec::new();
        let mut i: usize = from;
        while i < stop
            invariant
                from <= i <= stop <= v.len(),
                line@ == v@.subrange(from as int, i as int),
            decreases stop - i,
        {
            line.push(v[i]);
            i += 1;
            assert(v@.subrange(from as int, i as int) =~= v@.subrange(from as int, i - 1).push(
                v@[i - 1],
            ));
        }
        let ghost before = lines.deep_view();
        lines.push(line);
        proof {
            lemma_find_from(v@, '\n', from as int);
            lemma_chars_deep_view(line);
            assert(line@ == line_at(v@, from as int, end as int, ended));
            assert(lines.deep_view() =~= before.push(line@));
            let rest = if ended {
                lines_from(v@, end + 1)
            } else {
                Seq::<Seq<char>>::empty()
            };
            assert(lines_from(v@, from as int) =~= seq![line@] + rest);
            assert(before.push(line@) + rest =~= before + (seq![line@] + rest));
        }
        if ended {
            from = end + 1;
        } else {
            from = end;
        }
    }
    proof {
        assert(lines.deep_view() + Seq::<Seq<char>>::empty() =~= lines.deep_view());
    }
    lines
}

} // verus!
