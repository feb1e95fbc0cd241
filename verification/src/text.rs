//! Character-level text helpers shared by the parsers: whitespace, trimming,
//! prefixes, line splitting, decimal numbers, and conversions between `str`,
//! `String` and vectors of characters.
use vstd::prelude::*;

verus! {

broadcast use vstd::string::group_string_axioms;

// ---------------------------------------------------------------------------
// Specifications
// ---------------------------------------------------------------------------

/// The Unicode `White_Space` property, which is what `char::is_whitespace`
/// and therefore `str::trim` and `str::split_whitespace` test.
pub open spec fn is_white_space(c: char) -> bool {
    ||| ('\u{9}' <= c && c <= '\u{d}')
    ||| c == ' '
    ||| c == '\u{85}'
    ||| c == '\u{a0}'
    ||| c == '\u{1680}'
    ||| ('\u{2000}' <= c && c <= '\u{200a}')
    ||| c == '\u{2028}'
    ||| c == '\u{2029}'
    ||| c == '\u{202f}'
    ||| c == '\u{205f}'
    ||| c == '\u{3000}'
}

/// ASCII decimal digit.
pub open spec fn is_ascii_digit(c: char) -> bool {
    '0' <= c && c <= '9'
}

/// ASCII letter.
pub open spec fn is_ascii_alpha(c: char) -> bool {
    ('a' <= c && c <= 'z') || ('A' <= c && c <= 'Z')
}

/// ASCII letter or digit.
pub open spec fn is_ascii_alnum(c: char) -> bool {
    is_ascii_alpha(c) || is_ascii_digit(c)
}

/// `s` with its leading whitespace removed.
pub open spec fn trim_start(s: Seq<char>) -> Seq<char>
    decreases s.len(),
{
    if s.len() > 0 && is_white_space(s[0]) {
        trim_start(s.drop_first())
    } else {
        s
    }
}

/// `s` with its trailing whitespace removed.
pub open spec fn trim_end(s: Seq<char>) -> Seq<char>
    decreases s.len(),
{
    if s.len() > 0 && is_white_space(s.last()) {
        trim_end(s.drop_last())
    } else {
        s
    }
}

/// `s` with whitespace removed at both ends (`str::trim`).
pub open spec fn trim(s: Seq<char>) -> Seq<char> {
    trim_end(trim_start(s))
}

/// `s` with `p` removed as many times as it occurs at the front
/// (`str::trim_start_matches` with a string pattern).
pub open spec fn strip_all_prefix(s: Seq<char>, p: Seq<char>) -> Seq<char>
    decreases s.len(),
{
    if p.len() > 0 && p.is_prefix_of(s) {
        strip_all_prefix(s.skip(p.len() as int), p)
    } else {
        s
    }
}

/// `s` with `p` removed as many times as it occurs at the end
/// (`str::trim_end_matches` with a string pattern).
pub open spec fn strip_all_suffix(s: Seq<char>, p: Seq<char>) -> Seq<char>
    decreases s.len(),
{
    if p.len() > 0 && p.is_suffix_of(s) {
        strip_all_suffix(s.take(s.len() - p.len()), p)
    } else {
        s
    }
}

/// Whether `c` occurs in `s`.
pub open spec fn has_char(s: Seq<char>, c: char) -> bool {
    exists|i: int| 0 <= i < s.len() && s[i] == c
}

/// Whether `needle` occurs somewhere in `s` (`str::contains`).
pub open spec fn contains_seq(s: Seq<char>, needle: Seq<char>) -> bool {
    exists|i: int| 0 <= i <= s.len() - needle.len() && #[trigger] s.subrange(i, i + needle.len()) == needle
}

/// The index of the first `c` in `s`, if any (`str::find` with a char).
pub open spec fn find_char(s: Seq<char>, c: char) -> Option<int>
    decreases s.len(),
{
    if s.len() == 0 {
        None
    } else if s[0] == c {
        Some(0)
    } else {
        match find_char(s.drop_first(), c) {
            Some(i) => Some(i + 1),
            None => None,
        }
    }
}

/// One line as `str::lines` yields it: a trailing `"\n"` and then one
/// trailing `'\r'` are dropped.
pub open spec fn strip_line_ending(seg: Seq<char>) -> Seq<char> {
    if seg.len() > 0 && seg.last() == '\r' {
        seg.drop_last()
    } else {
        seg
    }
}

/// The lines of `s` as `str::lines` yields them: split after each `'\n'`;
/// each terminated line loses its `"\n"` or `"\r\n"`; a final segment without
/// a `'\n'` is kept as it is, and there is no empty line after a final `'\n'`.
pub open spec fn lines(s: Seq<char>) -> Seq<Seq<char>>
    decreases s.len(),
{
    if s.len() == 0 {
        seq![]
    } else {
        proof {
            lemma_find_char_found(s, '\n');
        }
        match find_char(s, '\n') {
            Some(i) => seq![strip_line_ending(s.take(i))] + lines(s.skip(i + 1)),
            None => seq![s],
        }
    }
}

/// Value of a string of ASCII digits.
pub open spec fn digits_value(s: Seq<char>) -> int
    decreases s.len(),
{
    if s.len() == 0 {
        0
    } else {
        digits_value(s.drop_last()) * 10 + (s.last() as int - '0' as int)
    }
}

/// Whether every character of `s` is an ASCII digit.
pub open spec fn all_digits(s: Seq<char>) -> bool {
    forall|i: int| 0 <= i < s.len() ==> is_ascii_digit(#[trigger] s[i])
}

/// What `str::parse::<u32>` gives: an optional `'+'`, then at least one ASCII
/// digit, and a value that fits in 32 bits; anything else is an error (`None`).
pub open spec fn parse_u32_spec(s: Seq<char>) -> Option<u32> {
    let d = if s.len() > 0 && s[0] == '+' { s.drop_first() } else { s };
    if d.len() > 0 && all_digits(d) && digits_value(d) <= u32::MAX {
        Some(digits_value(d) as u32)
    } else {
        None
    }
}

/// The decimal digit character of `d < 10`.
pub open spec fn digit_char(d: int) -> char {
    ('0' as int + d) as char
}

/// Decimal rendering of `n` (what `Display` prints for an unsigned integer).
pub open spec fn decimal(n: nat) -> Seq<char>
    decreases n,
{
    if n < 10 {
        seq![digit_char(n as int)]
    } else {
        decimal(n / 10).push(digit_char((n % 10) as int))
    }
}

// ---------------------------------------------------------------------------
// Lemmas
// ---------------------------------------------------------------------------

/// `trim_start` removes exactly the whitespace run at the front.
pub proof fn lemma_trim_start_skip(s: Seq<char>, k: int)
    requires
        0 <= k <= s.len(),
        forall|i: int| 0 <= i < k ==> is_white_space(#[trigger] s[i]),
        k == s.len() || !is_white_space(s[k]),
    ensures
        trim_start(s) == s.skip(k),
    decreases k,
{
    if k == 0 {
        assert(s.skip(0) =~= s);
    } else {
        assert(is_white_space(s[0]));
        let t = s.drop_first();
        assert forall|i: int| 0 <= i < k - 1 implies is_white_space(#[trigger] t[i]) by {
            assert(t[i] == s[i + 1]);
        }
        lemma_trim_start_skip(t, k - 1);
        assert(t.skip(k - 1) =~= s.skip(k));
    }
}

/// `trim_end` removes exactly the whitespace run at the end.
pub proof fn lemma_trim_end_take(s: Seq<char>, k: int)
    requires
        0 <= k <= s.len(),
        forall|i: int| k <= i < s.len() ==> is_white_space(#[trigger] s[i]),
        k == 0 || !is_white_space(s[k - 1]),
    ensures
        trim_end(s) == s.take(k),
    decreases s.len() - k,
{
    if k == s.len() {
        assert(s.take(k) =~= s);
    } else {
        assert(is_white_space(s.last()));
        let t = s.drop_last();
        assert forall|i: int| k <= i < t.len() implies is_white_space(#[trigger] t[i]) by {
            assert(t[i] == s[i]);
        }
        lemma_trim_end_take(t, k);
        assert(t.take(k) =~= s.take(k));
    }
}

/// `find_char` finds the first occurrence.
pub proof fn lemma_find_char(s: Seq<char>, c: char, k: int)
    requires
        0 <= k <= s.len(),
        forall|i: int| 0 <= i < k ==> #[trigger] s[i] != c,
    ensures
        k < s.len() && s[k] == c ==> find_char(s, c) == Some(k),
        k == s.len() ==> find_char(s, c) is None,
    decreases k,
{
    if k > 0 {
        let t = s.drop_first();
        assert forall|i: int| 0 <= i < k - 1 implies #[trigger] t[i] != c by {
            assert(t[i] == s[i + 1]);
        }
        lemma_find_char(t, c, k - 1);
    }
}

/// A found index is in range and holds the character.
pub proof fn lemma_find_char_found(s: Seq<char>, c: char)
    ensures
        find_char(s, c) matches Some(i) ==> 0 <= i < s.len() && s[i] == c && (forall|j: int|
            0 <= j < i ==> s[j] != c),
        find_char(s, c) is None ==> !has_char(s, c),
    decreases s.len(),
{
    if s.len() > 0 {
        lemma_find_char_found(s.drop_first(), c);
        if find_char(s, c) is None {
            assert forall|i: int| 0 <= i < s.len() implies s[i] != c by {
                if i > 0 {
                    assert(s.drop_first()[i - 1] == s[i]);
                }
            }
        }
        if let Some(i) = find_char(s, c) {
            if i > 0 {
                assert forall|j: int| 0 <= j < i implies s[j] != c by {
                    if j > 0 {
                        assert(s.drop_first()[j - 1] == s[j]);
                    }
                }
            }
        }
    }
}

/// A longer digit string is worth at least as much as its prefix.
pub proof fn lemma_digits_value_monotone(s: Seq<char>, k: int)
    requires
        0 <= k <= s.len(),
        all_digits(s),
    ensures
        digits_value(s.take(k)) <= digits_value(s),
        digits_value(s) >= 0,
    decreases s.len(),
{
    if s.len() > 0 {
        let t = s.drop_last();
        assert(all_digits(t)) by {
            assert forall|i: int| 0 <= i < t.len() implies is_ascii_digit(#[trigger] t[i]) by {
                assert(t[i] == s[i]);
            }
        }
        assert(is_ascii_digit(s[s.len() - 1]));
        if k == s.len() {
            assert(s.take(k) =~= s);
            lemma_digits_value_monotone(t, 0);
        } else {
            lemma_digits_value_monotone(t, k);
            assert(t.take(k) =~= s.take(k));
        }
    } else {
        assert(s.take(k) =~= s);
    }
}

// ---------------------------------------------------------------------------
// Executable helpers
// ---------------------------------------------------------------------------

/// Appends one character to a string (`String::push`).
#[verifier::external_body]
fn push_char(s: &mut String, c: char)
    ensures
        final(s)@ == old(s)@.push(c),
{
    s.push(c);
}

/// Whether `c` has the Unicode `White_Space` property.
pub fn is_white_space_char(c: char) -> (r: bool)
    ensures
        r == is_white_space(c),
{
    ('\u{9}' <= c && c <= '\u{d}') || c == ' ' || c == '\u{85}' || c == '\u{a0}' || c
        == '\u{1680}' || ('\u{2000}' <= c && c <= '\u{200a}') || c == '\u{2028}' || c == '\u{2029}'
        || c == '\u{202f}' || c == '\u{205f}' || c == '\u{3000}'
}

/// Whether `c` is an ASCII decimal digit.
pub fn is_ascii_digit_char(c: char) -> (r: bool)
    ensures
        r == is_ascii_digit(c),
{
    '0' <= c && c <= '9'
}

/// Whether `c` is an ASCII letter.
pub fn is_ascii_alpha_char(c: char) -> (r: bool)
    ensures
        r == is_ascii_alpha(c),
{
    ('a' <= c && c <= 'z') || ('A' <= c && c <= 'Z')
}

/// Whether `c` is an ASCII letter or digit.
pub fn is_ascii_alnum_char(c: char) -> (r: bool)
    ensures
        r == is_ascii_alnum(c),
{
    is_ascii_alpha_char(c) || is_ascii_digit_char(c)
}

/// The characters of `s`.
pub fn to_chars(s: &str) -> (v: Vec<char>)
    ensures
        v@ == s@,
{
    let mut v: Vec<char> = Vec::new();
    for c in it: s.chars()
        invariant
            v@ == it.seq().take(it.index() as int),
    {
        v.push(c);
    }
    assert(v@ =~= s@);
    v
}

/// A string holding the characters of `v`.
pub fn from_chars(v: &[char]) -> (s: String)
    ensures
        s@ == v@,
{
    let mut s = String::new();
    let mut i: usize = 0;
    while i < v.len()
        invariant
            i <= v@.len(),
            s@ == v@.take(i as int),
        decreases v@.len() - i,
    {
        push_char(&mut s, v[i]);
        i = i + 1;
        assert(s@ =~= v@.take(i as int));
    }
    assert(v@.take(v@.len() as int) =~= v@);
    s
}

/// The characters of `v` from `start` up to `end`.
pub fn sub_chars(v: &[char], start: usize, end: usize) -> (r: Vec<char>)
    requires
        start <= end <= v@.len(),
    ensures
        r@ == v@.subrange(start as int, end as int),
{
    let mut r: Vec<char> = Vec::new();
    let mut i: usize = start;
    while i < end
        invariant
            start <= i <= end <= v@.len(),
            r@ == v@.subrange(start as int, i as int),
        decreases end - i,
    {
        r.push(v[i]);
        i = i + 1;
        assert(r@ =~= v@.subrange(start as int, i as int));
    }
    r
}

/// Appends the characters of `src` to `dst`.
pub fn append_chars(dst: &mut Vec<char>, src: &[char])
    ensures
        final(dst)@ == old(dst)@ + src@,
{
    let mut i: usize = 0;
    while i < src.len()
        invariant
            i <= src@.len(),
            dst@ == old(dst)@ + src@.take(i as int),
        decreases src@.len() - i,
    {
        dst.push(src[i]);
        i = i + 1;
        assert(dst@ =~= old(dst)@ + src@.take(i as int));
    }
    assert(src@.take(src@.len() as int) =~= src@);
}

/// Whether `p` is a prefix of `s`.
pub fn has_prefix(s: &[char], p: &[char]) -> (r: bool)
    ensures
        r == p@.is_prefix_of(s@),
{
    if p.len() > s.len() {
        return false;
    }
    let mut i: usize = 0;
    while i < p.len()
        invariant
            p@.len() <= s@.len(),
            i <= p@.len(),
            forall|j: int| 0 <= j < i ==> s@[j] == p@[j],
        decreases p@.len() - i,
    {
        if s[i] != p[i] {
            assert(s@.subrange(0, p@.len() as int)[i as int] != p@[i as int]);
            return false;
        }
        i = i + 1;
    }
    assert(p@ =~= s@.subrange(0, p@.len() as int));
    true
}

/// Whether `p` is a suffix of `s`.
pub fn has_suffix(s: &[char], p: &[char]) -> (r: bool)
    ensures
        r == p@.is_suffix_of(s@),
{
    if p.len() > s.len() {
        return false;
    }
    let off = s.len() - p.len();
    let mut i: usize = 0;
    while i < p.len()
        invariant
            p@.len() <= s@.len(),
            off + p.len() == s.len(),
            i <= p@.len(),
            forall|j: int| 0 <= j < i ==> s@[off + j] == p@[j],
        decreases p@.len() - i,
    {
        if s[off + i] != p[i] {
            assert(s@.subrange(off as int, s@.len() as int)[i as int] != p@[i as int]);
            return false;
        }
        i = i + 1;
    }
    assert(p@ =~= s@.subrange(off as int, s@.len() as int));
    true
}

/// Whether `needle` occurs in `s`.
pub fn contains_chars(s: &[char], needle: &[char]) -> (r: bool)
    ensures
        r == contains_seq(s@, needle@),
{
    if needle.len() == 0 {
        assert(s@.subrange(0int, 0int + needle@.len()) =~= needle@);
        return true;
    }
    if needle.len() > s.len() {
        return false;
    }
    let last = s.len() - needle.len();
    let mut i: usize = 0;
    while i <= last
        invariant
            0 < needle@.len() <= s@.len(),
            last + needle.len() == s.len(),
            i <= last + 1,
            forall|k: int| 0 <= k < i ==> #[trigger] s@.subrange(k, k + needle@.len()) != needle@,
        decreases last + 1 - i,
    {
        let mut j: usize = 0;
        let mut ok = true;
        while j < needle.len() && ok
            invariant
                0 < needle@.len() <= s@.len(),
                i <= last,
                last + needle.len() == s.len(),
                j <= needle@.len(),
                ok ==> forall|m: int| 0 <= m < j ==> s@[i + m] == needle@[m],
                !ok ==> s@.subrange(i as int, i + needle@.len()) != needle@,
            decreases needle@.len() - j + (if ok { 1int } else { 0int }),
        {
            if s[i + j] != needle[j] {
                assert(s@.subrange(i as int, i + needle@.len())[j as int] != needle@[j as int]);
                ok = false;
            } else {
                j = j + 1;
            }
        }
        if ok {
            assert(s@.subrange(i as int, i + needle@.len()) =~= needle@);
            return true;
        }
        i = i + 1;
    }
    false
}

/// Whether two character sequences are equal.
pub fn chars_eq(a: &[char], b: &[char]) -> (r: bool)
    ensures
        r == (a@ == b@),
{
    if a.len() != b.len() {
        return false;
    }
    let mut i: usize = 0;
    while i < a.len()
        invariant
            a@.len() == b@.len(),
            i <= a@.len(),
            forall|j: int| 0 <= j < i ==> a@[j] == b@[j],
        decreases a@.len() - i,
    {
        if a[i] != b[i] {
            return false;
        }
        i = i + 1;
    }
    assert(a@ =~= b@);
    true
}

/// The bounds of `s` without its surrounding whitespace:
/// `s[start..end]` is `trim(s)`.
pub fn trim_bounds(s: &[char]) -> (r: (usize, usize))
    ensures
        r.0 <= r.1 <= s@.len(),
        s@.subrange(r.0 as int, r.1 as int) == trim(s@),
        trim_start(s@) == s@.skip(r.0 as int),
{
    let mut a: usize = 0;
    while a < s.len() && is_white_space_char(s[a])
        invariant
            a <= s@.len(),
            forall|i: int| 0 <= i < a ==> is_white_space(#[trigger] s@[i]),
        decreases s@.len() - a,
    {
        a = a + 1;
    }
    proof {
        lemma_trim_start_skip(s@, a as int);
    }
    let mut b: usize = s.len();
    while b > a && is_white_space_char(s[b - 1])
        invariant
            a <= b <= s@.len(),
            forall|i: int| b <= i < s@.len() ==> is_white_space(#[trigger] s@[i]),
        decreases b,
    {
        b = b - 1;
    }
    proof {
        let t = s@.skip(a as int);
        let k = b - a;
        assert forall|i: int| k <= i < t.len() implies is_white_space(#[trigger] t[i]) by {
            assert(t[i] == s@[i + a]);
        }
        if k > 0 {
            assert(t[k - 1] == s@[b - 1]);
        }
        lemma_trim_end_take(t, k);
        assert(t.take(k) =~= s@.subrange(a as int, b as int));
    }
    (a, b)
}

/// `trim(s)` as a new vector.
pub fn trim_chars(s: &[char]) -> (r: Vec<char>)
    ensures
        r@ == trim(s@),
{
    let (a, b) = trim_bounds(s);
    sub_chars(s, a, b)
}

/// The lines of `s`, as `str::lines` yields them.
pub fn split_lines(s: &[char]) -> (r: Vec<Vec<char>>)
    ensures
        line_views(r@) == lines(s@),
{
    let mut r: Vec<Vec<char>> = Vec::new();
    let mut start: usize = 0;
    assert(s@.skip(0) =~= s@);
    assert(line_views(r@) =~= Seq::<Seq<char>>::empty());
    assert(line_views(r@) + lines(s@) =~= lines(s@));
    while start < s.len()
        invariant
            start <= s@.len(),
            lines(s@) == line_views(r@) + lines(s@.skip(start as int)),
        decreases s@.len() - start,
    {
        let ghost rest = s@.skip(start as int);
        let ghost before = line_views(r@);
        let mut end: usize = start;
        while end < s.len() && s[end] != '\n'
            invariant
                start <= end <= s@.len(),
                rest == s@.skip(start as int),
                forall|i: int| start <= i < end ==> s@[i] != '\n',
            decreases s@.len() - end,
        {
            end = end + 1;
        }
        proof {
            assert forall|i: int| 0 <= i < end - start implies #[trigger] rest[i] != '\n' by {
                assert(rest[i] == s@[start + i]);
            }
            lemma_find_char(rest, '\n', end - start);
        }
        if end < s.len() {
            // A terminated line: drop the "\n" and one '\r' before it.
            let mut stop = end;
            if stop > start && s[stop - 1] == '\r' {
                stop = stop - 1;
            }
            let line = sub_chars(s, start, stop);
            proof {
                assert(rest[end - start] == s@[end as int]);
                assert(rest.take(end - start) =~= s@.subrange(start as int, end as int));
                assert(line@ =~= strip_line_ending(rest.take(end - start)));
                assert(rest.skip(end - start + 1) =~= s@.skip(end + 1));
                assert(lines(rest) == seq![line@] + lines(s@.skip(end + 1)));
            }
            r.push(line);
            start = end + 1;
            proof {
                assert(line_views(r@) =~= before.push(line@));
                assert(lines(s@) =~= line_views(r@) + lines(s@.skip(start as int)));
            }
        } else {
            let line = sub_chars(s, start, end);
            proof {
                assert(line@ =~= rest);
                assert(lines(rest) == seq![rest]);
                assert(s@.skip(end as int).len() == 0);
                assert(lines(s@.skip(end as int)) =~= Seq::<Seq<char>>::empty());
            }
            r.push(line);
            start = end;
            proof {
                assert(line_views(r@) =~= before.push(line@));
                assert(lines(s@) =~= line_views(r@) + lines(s@.skip(start as int)));
            }
        }
    }
    proof {
        assert(s@.skip(start as int).len() == 0);
        assert(lines(s@.skip(start as int)) =~= Seq::<Seq<char>>::empty());
    }
    assert(lines(s@) =~= line_views(r@));
    r
}

/// The views of a vector of lines.
pub open spec fn line_views(v: Seq<Vec<char>>) -> Seq<Seq<char>> {
    v.map_values(|l: Vec<char>| l@)
}

/// `str::parse::<u32>`.
pub fn parse_u32(s: &[char]) -> (r: Option<u32>)
    ensures
        r == parse_u32_spec(s@),
{
    let start: usize = if s.len() > 0 && s[0] == '+' { 1 } else { 0 };
    let ghost d = if s@.len() > 0 && s@[0] == '+' { s@.drop_first() } else { s@ };
    assert(d =~= s@.skip(start as int));
    assert(parse_u32_spec(s@) == (if d.len() > 0 && all_digits(d) && digits_value(d) <= u32::MAX {
        Some(digits_value(d) as u32)
    } else {
        None::<u32>
    }));
    if start == s.len() {
        assert(d.len() == 0);
        return None;
    }
    let mut value: u64 = 0;
    let mut i: usize = start;
    while i < s.len()
        invariant
            start <= i <= s@.len(),
            d == s@.skip(start as int),
            parse_u32_spec(s@) == (if d.len() > 0 && all_digits(d) && digits_value(d) <= u32::MAX {
                Some(digits_value(d) as u32)
            } else {
                None::<u32>
            }),
            all_digits(d.take(i - start)),
            value == digits_value(d.take(i - start)),
            value <= u32::MAX,
        decreases s@.len() - i,
    {
        let c = s[i];
        if !is_ascii_digit_char(c) {
            assert(d[i - start] == c);
            assert(!all_digits(d));
            assert(parse_u32_spec(s@) is None);
            return None;
        }
        let next: u64 = value * 10 + (c as u64 - '0' as u64);
        proof {
            let t = d.take(i - start + 1);
            assert(t.drop_last() =~= d.take(i - start));
            assert(t.last() == c);
            assert(all_digits(t)) by {
                assert forall|k: int| 0 <= k < t.len() implies is_ascii_digit(#[trigger] t[k]) by {
                    if k < t.len() - 1 {
                        assert(t[k] == d.take(i - start)[k]);
                    }
                }
            }
        }
        if next > 4294967295u64 {
            proof {
                let t = d.take(i - start + 1);
                assert(digits_value(t) == next);
                if all_digits(d) {
                    lemma_digits_value_monotone(d, i - start + 1);
                    assert(digits_value(d) > u32::MAX);
                }
                assert(parse_u32_spec(s@) is None);
            }
            return None;
        }
        value = next;
        i = i + 1;
    }
    assert(d.take(i - start) =~= d);
    Some(value as u32)
}

/// The decimal rendering of `n`.
pub fn decimal_string(n: usize) -> (r: Vec<char>)
    ensures
        r@ == decimal(n as nat),
    decreases n,
{
    if n < 10 {
        let c = char_of_digit(n as u32);
        let mut r: Vec<char> = Vec::new();
        r.push(c);
        assert(r@ =~= decimal(n as nat));
        r
    } else {
        let mut r = decimal_string(n / 10);
        let c = char_of_digit((n % 10) as u32);
        r.push(c);
        r
    }
}

/// The digit character of `d < 10`.
pub fn char_of_digit(d: u32) -> (c: char)
    requires
        d < 10,
    ensures
        c == digit_char(d as int),
{
    match d {
        0 => '0',
        1 => '1',
        2 => '2',
        3 => '3',
        4 => '4',
        5 => '5',
        6 => '6',
        7 => '7',
        8 => '8',
        _ => '9',
    }
}

// ---------------------------------------------------------------------------
// Runs of characters
// ---------------------------------------------------------------------------

/// Which characters a run is made of.
#[derive(Clone, Copy, PartialEq, Eq, Structural)]
pub enum RunKind {
    /// Anything but whitespace (`str::split_whitespace`).
    NonWhitespace,
    /// ASCII letters, digits and `_`.
    Word,
    /// ASCII letters, digits, `-` and `_` (a CSS class name).
    CssName,
    /// Anything but `/` (a piece of a path).
    PathPart,
}

/// Whether `c` belongs in a run of the given kind.
pub open spec fn in_run(kind: RunKind, c: char) -> bool {
    match kind {
        RunKind::NonWhitespace => !is_white_space(c),
        RunKind::Word => is_ascii_alnum(c) || c == '_',
        RunKind::CssName => is_ascii_alnum(c) || c == '-' || c == '_',
        RunKind::PathPart => c != '/',
    }
}

/// Length of the run of `kind` at the front of `s`.
pub open spec fn run_len(s: Seq<char>, kind: RunKind) -> int
    decreases s.len(),
{
    if s.len() > 0 && in_run(kind, s[0]) {
        1 + run_len(s.drop_first(), kind)
    } else {
        0
    }
}

/// The maximal runs of `kind` in `s`, in order.
pub open spec fn runs(s: Seq<char>, kind: RunKind) -> Seq<Seq<char>>
    decreases s.len(),
{
    if s.len() == 0 {
        seq![]
    } else if !in_run(kind, s[0]) {
        runs(s.drop_first(), kind)
    } else {
        proof {
            lemma_run_len_bounds(s, kind);
        }
        seq![s.take(run_len(s, kind))] + runs(s.skip(run_len(s, kind)), kind)
    }
}

/// A run is at most the whole text, and non-empty when the text starts with
/// a run character.
pub proof fn lemma_run_len_bounds(s: Seq<char>, kind: RunKind)
    ensures
        0 <= run_len(s, kind) <= s.len(),
        s.len() > 0 && in_run(kind, s[0]) ==> run_len(s, kind) >= 1,
    decreases s.len(),
{
    if s.len() > 0 {
        lemma_run_len_bounds(s.drop_first(), kind);
    }
}

/// `run_len` counts the leading run.
pub proof fn lemma_run_len(s: Seq<char>, kind: RunKind, k: int)
    requires
        0 <= k <= s.len(),
        forall|i: int| 0 <= i < k ==> in_run(kind, #[trigger] s[i]),
        k == s.len() || !in_run(kind, s[k]),
    ensures
        run_len(s, kind) == k,
    decreases k,
{
    if k > 0 {
        let t = s.drop_first();
        assert forall|i: int| 0 <= i < k - 1 implies in_run(kind, #[trigger] t[i]) by {
            assert(t[i] == s[i + 1]);
        }
        if k < s.len() {
            assert(t[k - 1] == s[k]);
        }
        lemma_run_len(t, kind, k - 1);
    }
}

/// Skipping characters outside runs does not change the runs.
pub proof fn lemma_runs_skip_gap(s: Seq<char>, kind: RunKind, k: int)
    requires
        0 <= k <= s.len(),
        forall|i: int| 0 <= i < k ==> !in_run(kind, #[trigger] s[i]),
    ensures
        runs(s, kind) == runs(s.skip(k), kind),
    decreases k,
{
    if k == 0 {
        assert(s.skip(0) =~= s);
    } else {
        let t = s.drop_first();
        assert forall|i: int| 0 <= i < k - 1 implies !in_run(kind, #[trigger] t[i]) by {
            assert(t[i] == s[i + 1]);
        }
        lemma_runs_skip_gap(t, kind, k - 1);
        assert(t.skip(k - 1) =~= s.skip(k));
    }
}

/// Whether `c` belongs in a run of the given kind.
pub fn in_run_char(kind: RunKind, c: char) -> (r: bool)
    ensures
        r == in_run(kind, c),
{
    match kind {
        RunKind::NonWhitespace => !is_white_space_char(c),
        RunKind::Word => is_ascii_alnum_char(c) || c == '_',
        RunKind::CssName => is_ascii_alnum_char(c) || c == '-' || c == '_',
        RunKind::PathPart => c != '/',
    }
}

/// The maximal runs of `kind` in `s`.
pub fn split_runs(s: &[char], kind: RunKind) -> (r: Vec<Vec<char>>)
    ensures
        line_views(r@) == runs(s@, kind),
{
    let mut r: Vec<Vec<char>> = Vec::new();
    let mut i: usize = 0;
    assert(s@.skip(0) =~= s@);
    assert(line_views(r@) + runs(s@, kind) =~= runs(s@, kind));
    while i < s.len()
        invariant
            i <= s@.len(),
            runs(s@, kind) == line_views(r@) + runs(s@.skip(i as int), kind),
        decreases s@.len() - i,
    {
        let ghost before = line_views(r@);
        let mut g: usize = i;
        while g < s.len() && !in_run_char(kind, s[g])
            invariant
                i <= g <= s@.len(),
                forall|j: int| i <= j < g ==> !in_run(kind, #[trigger] s@[j]),
            decreases s@.len() - g,
        {
            g = g + 1;
        }
        proof {
            let t = s@.skip(i as int);
            assert forall|j: int| 0 <= j < g - i implies !in_run(kind, #[trigger] t[j]) by {
                assert(t[j] == s@[i + j]);
            }
            lemma_runs_skip_gap(t, kind, g - i);
            assert(t.skip(g - i) =~= s@.skip(g as int));
        }
        if g == s.len() {
            i = g;
        } else {
            let mut e: usize = g;
            while e < s.len() && in_run_char(kind, s[e])
                invariant
                    g <= e <= s@.len(),
                    forall|j: int| g <= j < e ==> in_run(kind, #[trigger] s@[j]),
                decreases s@.len() - e,
            {
                e = e + 1;
            }
            let word = sub_chars(s, g, e);
            proof {
                let t = s@.skip(g as int);
                assert(t[0] == s@[g as int]);
                assert forall|j: int| 0 <= j < e - g implies in_run(kind, #[trigger] t[j]) by {
                    assert(t[j] == s@[g + j]);
                }
                if e < s.len() {
                    assert(t[e - g] == s@[e as int]);
                }
                lemma_run_len(t, kind, e - g);
                assert(t.take(e - g) =~= word@);
                assert(t.skip(e - g) =~= s@.skip(e as int));
                assert(runs(t, kind) == seq![word@] + runs(s@.skip(e as int), kind));
            }
            r.push(word);
            assert(line_views(r@) =~= before.push(word@));
            i = e;
            assert(runs(s@, kind) =~= line_views(r@) + runs(s@.skip(i as int), kind));
        }
    }
    proof {
        assert(s@.skip(i as int).len() == 0);
        assert(runs(s@.skip(i as int), kind) =~= Seq::<Seq<char>>::empty());
    }
    assert(runs(s@, kind) =~= line_views(r@));
    r
}

/// Length of the run of `kind` at the front of `s`.
pub fn run_length(s: &[char], kind: RunKind) -> (n: usize)
    ensures
        n as int == run_len(s@, kind),
        n <= s@.len(),
{
    let mut n: usize = 0;
    while n < s.len() && in_run_char(kind, s[n])
        invariant
            n <= s@.len(),
            forall|j: int| 0 <= j < n ==> in_run(kind, #[trigger] s@[j]),
        decreases s@.len() - n,
    {
        n = n + 1;
    }
    proof {
        lemma_run_len(s@, kind, n as int);
    }
    n
}

/// `s` past its leading run of `c` (`str::trim_start_matches` with a char).
pub fn strip_char_prefix_run(s: &[char], c: char) -> (r: Vec<char>)
    ensures
        r@ == strip_all_prefix(s@, seq![c]),
{
    let mut k: usize = 0;
    while k < s.len() && s[k] == c
        invariant
            k <= s@.len(),
            forall|i: int| 0 <= i < k ==> #[trigger] s@[i] == c,
        decreases s@.len() - k,
    {
        k = k + 1;
    }
    proof {
        lemma_strip_prefix_run(s@, c, k as int);
    }
    let r = sub_chars(s, k, s.len());
    assert(r@ =~= s@.skip(k as int));
    r
}

/// `strip_all_prefix(s, [c])` is `s` past its leading run of `c`.
pub proof fn lemma_strip_prefix_run(s: Seq<char>, c: char, k: int)
    requires
        0 <= k <= s.len(),
        forall|i: int| 0 <= i < k ==> #[trigger] s[i] == c,
        k == s.len() || s[k] != c,
    ensures
        strip_all_prefix(s, seq![c]) == s.skip(k),
    decreases k,
{
    if k == 0 {
        if s.len() > 0 {
            assert(s.subrange(0, 1)[0] == s[0]);
        }
        assert(!seq![c].is_prefix_of(s));
        assert(s.skip(0) =~= s);
    } else {
        assert(seq![c].is_prefix_of(s)) by {
            assert(s.subrange(0, 1) =~= seq![c]);
        }
        let t = s.skip(1);
        assert forall|i: int| 0 <= i < k - 1 implies #[trigger] t[i] == c by {
            assert(t[i] == s[i + 1]);
        }
        if k < s.len() {
            assert(t[k - 1] == s[k]);
        }
        lemma_strip_prefix_run(t, c, k - 1);
        assert(t.skip(k - 1) =~= s.skip(k));
    }
}

/// `strip_all_suffix(s, [c])` is `s` before its trailing run of `c`.
pub proof fn lemma_strip_suffix_run(s: Seq<char>, c: char, k: int)
    requires
        0 <= k <= s.len(),
        forall|i: int| k <= i < s.len() ==> #[trigger] s[i] == c,
        k == 0 || s[k - 1] != c,
    ensures
        strip_all_suffix(s, seq![c]) == s.take(k),
    decreases s.len() - k,
{
    if k == s.len() {
        if s.len() > 0 {
            assert(s.subrange(s.len() - 1, s.len() as int)[0] == s[s.len() - 1]);
        }
        assert(!seq![c].is_suffix_of(s));
        assert(s.take(k) =~= s);
    } else {
        assert(seq![c].is_suffix_of(s)) by {
            assert(s.subrange(s.len() - 1, s.len() as int) =~= seq![c]);
        }
        let t = s.take(s.len() - 1);
        assert forall|i: int| k <= i < t.len() implies #[trigger] t[i] == c by {
            assert(t[i] == s[i]);
        }
        if k > 0 {
            assert(t[k - 1] == s[k - 1]);
        }
        lemma_strip_suffix_run(t, c, k);
        assert(t.take(k) =~= s.take(k));
    }
}

/// `s` without its runs of `c` at both ends (`str::trim_matches` with a char).
pub fn trim_char_runs(s: &[char], c: char) -> (r: Vec<char>)
    ensures
        r@ == strip_all_suffix(strip_all_prefix(s@, seq![c]), seq![c]),
{
    let front = strip_char_prefix_run(s, c);
    let mut k: usize = front.len();
    while k > 0 && front[k - 1] == c
        invariant
            k <= front@.len(),
            forall|i: int| k <= i < front@.len() ==> #[trigger] front@[i] == c,
        decreases k,
    {
        k = k - 1;
    }
    proof {
        lemma_strip_suffix_run(front@, c, k as int);
    }
    let r = sub_chars(&front, 0, k);
    assert(r@ =~= front@.take(k as int));
    r
}

/// A copy of `v`.
pub fn copy_chars(v: &[char]) -> (r: Vec<char>)
    ensures
        r@ == v@,
{
    let r = sub_chars(v, 0, v.len());
    assert(r@ =~= v@);
    r
}

/// `s` with `p` removed from its front as often as it occurs there
/// (`str::trim_start_matches` with a string).
pub fn strip_prefix_repeated(s: &[char], p: &[char]) -> (r: Vec<char>)
    ensures
        r@ == strip_all_prefix(s@, p@),
{
    let mut cur = copy_chars(s);
    if p.len() == 0 {
        return cur;
    }
    while has_prefix(&cur, p)
        invariant
            p@.len() > 0,
            strip_all_prefix(s@, p@) == strip_all_prefix(cur@, p@),
        decreases cur@.len(),
    {
        let next = sub_chars(&cur, p.len(), cur.len());
        assert(next@ =~= cur@.skip(p@.len() as int));
        cur = next;
    }
    cur
}

/// `s` with `p` removed from its end as often as it occurs there
/// (`str::trim_end_matches` with a string).
pub fn strip_suffix_repeated(s: &[char], p: &[char]) -> (r: Vec<char>)
    ensures
        r@ == strip_all_suffix(s@, p@),
{
    let mut cur = copy_chars(s);
    if p.len() == 0 {
        return cur;
    }
    while has_suffix(&cur, p)
        invariant
            p@.len() > 0,
            strip_all_suffix(s@, p@) == strip_all_suffix(cur@, p@),
        decreases cur@.len(),
    {
        let next = sub_chars(&cur, 0, cur.len() - p.len());
        assert(next@ =~= cur@.take(cur@.len() - p@.len()));
        cur = next;
    }
    cur
}

/// Law: decimal rendering and reading agree: the digits of `n` read back as
/// `n` (so `str::parse` gives back every `u32` that `Display` prints), and
/// only a single `0` starts with `0`.
pub proof fn law_decimal_reads_back(n: nat)
    ensures
        decimal(n).len() >= 1,
        all_digits(decimal(n)),
        digits_value(decimal(n)) == n,
        decimal(n)[0] == '0' ==> n == 0,
        n <= u32::MAX ==> parse_u32_spec(decimal(n)) == Some(n as u32),
    decreases n,
{
    let s = decimal(n);
    if n < 10 {
        assert(s[0] == digit_char(n as int));
        assert(digit_char(n as int) as int == '0' as int + n);
        assert(s.drop_last().len() == 0);
        assert(s.last() == s[0]);
        assert(digits_value(s.drop_last()) == 0);
        assert(digits_value(s) == n);
    } else {
        law_decimal_reads_back(n / 10);
        let t = decimal(n / 10);
        assert(s == t.push(digit_char((n % 10) as int)));
        assert(digit_char((n % 10) as int) as int == '0' as int + n % 10);
        assert(s.drop_last() =~= t);
        assert forall|i: int| 0 <= i < s.len() implies is_ascii_digit(#[trigger] s[i]) by {
            if i < t.len() {
                assert(s[i] == t[i]);
            }
        }
        assert(s[0] == t[0]);
        assert(n / 10 * 10 + n % 10 == n);
        assert(s.last() == digit_char((n % 10) as int));
        assert(digits_value(s) == digits_value(t) * 10 + (s.last() as int - '0' as int));
        assert(digits_value(s) == n);
    }
    if n <= u32::MAX {
        if s.len() > 0 && s[0] == '+' {
            assert(is_ascii_digit(s[0]));
        }
    }
}

/// Law: the characters of each kind of run: words are ASCII letters, digits
/// and `_`; CSS class names add `-`; path pieces are anything but `/`; and
/// whitespace-separated tokens are anything but Unicode whitespace.
pub proof fn law_run_kinds(c: char)
    ensures
        in_run(RunKind::Word, c) <==> (('a' <= c <= 'z') || ('A' <= c <= 'Z') || ('0' <= c <= '9')
            || c == '_'),
        in_run(RunKind::CssName, c) <==> (('a' <= c <= 'z') || ('A' <= c <= 'Z') || ('0' <= c
            <= '9') || c == '_' || c == '-'),
        in_run(RunKind::PathPart, c) <==> c != '/',
        in_run(RunKind::NonWhitespace, c) <==> !is_white_space(c),
        is_white_space(' ') && is_white_space('\t') && is_white_space('\n') && is_white_space('\r')
            && !is_white_space('a') && !is_white_space('/'),
{
}

} // verus!
