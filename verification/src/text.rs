//! Character sequences: whitespace, trimming, pattern search, lines, and
//! numbers in base ten.
//!
//! Everything here is stated over `Seq<char>`, the view of a string, and
//! computed over slices of `char`.

use vstd::prelude::*;
use vstd::slice::slice_subrange;
use vstd::string::StringExecFns;

verus! {

/// Whether `c` has the Unicode property `White_Space`.
pub open spec fn is_whitespace(c: char) -> bool {
    let n = c as u32;
    ||| 0x09 <= n <= 0x0D
    ||| n == 0x20
    ||| n == 0x85
    ||| n == 0xA0
    ||| n == 0x1680
    ||| 0x2000 <= n <= 0x200A
    ||| n == 0x2028
    ||| n == 0x2029
    ||| n == 0x202F
    ||| n == 0x205F
    ||| n == 0x3000
}

/// `s` without its leading whitespace.
pub open spec fn trim_start(s: Seq<char>) -> Seq<char>
    decreases s.len(),
{
    if s.len() > 0 && is_whitespace(s[0]) {
        trim_start(s.skip(1))
    } else {
        s
    }
}

/// `s` without its trailing whitespace.
pub open spec fn trim_end(s: Seq<char>) -> Seq<char>
    decreases s.len(),
{
    if s.len() > 0 && is_whitespace(s.last()) {
        trim_end(s.drop_last())
    } else {
        s
    }
}

/// `s` without its leading and trailing whitespace.
pub open spec fn trim(s: Seq<char>) -> Seq<char> {
    trim_end(trim_start(s))
}

/// Whether every character of `s` is whitespace.
pub open spec fn is_blank(s: Seq<char>) -> bool {
    forall|i: int| 0 <= i < s.len() ==> is_whitespace(#[trigger] s[i])
}

/// Whether `pattern` stands in `text` at offset `at`.
pub open spec fn occurs_at(text: Seq<char>, pattern: Seq<char>, at: int) -> bool {
    &&& 0 <= at
    &&& at + pattern.len() <= text.len()
    &&& text.subrange(at, at + pattern.len()) == pattern
}

/// Whether `text` begins with `pattern`.
pub open spec fn starts_with(text: Seq<char>, pattern: Seq<char>) -> bool {
    occurs_at(text, pattern, 0)
}

/// Whether `text` ends with `pattern`.
pub open spec fn ends_with(text: Seq<char>, pattern: Seq<char>) -> bool {
    occurs_at(text, pattern, text.len() - pattern.len())
}

/// Whether `pattern` stands somewhere in `text`.
pub open spec fn contains(text: Seq<char>, pattern: Seq<char>) -> bool {
    exists|at: int| occurs_at(text, pattern, at)
}

/// Whether `text` begins with one of `patterns`.
pub open spec fn starts_with_any(text: Seq<char>, patterns: Seq<Seq<char>>) -> bool {
    exists|i: int| 0 <= i < patterns.len() && starts_with(text, #[trigger] patterns[i])
}

/// Whether `text` ends with one of `patterns`.
pub open spec fn ends_with_any(text: Seq<char>, patterns: Seq<Seq<char>>) -> bool {
    exists|i: int| 0 <= i < patterns.len() && ends_with(text, #[trigger] patterns[i])
}

/// Whether one of `patterns` stands somewhere in `text`.
pub open spec fn contains_any(text: Seq<char>, patterns: Seq<Seq<char>>) -> bool {
    exists|i: int| 0 <= i < patterns.len() && contains(text, #[trigger] patterns[i])
}

/// The number of characters of `content` before its first line feed, or all of
/// them where it holds none.
pub open spec fn first_line_len(content: Seq<char>) -> nat
    decreases content.len(),
{
    if content.len() == 0 || content[0] == '\n' {
        0
    } else {
        1 + first_line_len(content.skip(1))
    }
}

/// The lines of `content`. A line ends at a line feed, which is not part of it,
/// or at the end of `content`. Nothing follows the last line feed: content that
/// ends with one has no empty line after it, and empty content has no line.
pub open spec fn split_lines(content: Seq<char>) -> Seq<Seq<char>>
    decreases content.len(),
{
    if content.len() == 0 {
        Seq::empty()
    } else {
        let n: int = first_line_len(content) as int;
        let rest = if n < content.len() {
            content.skip(n + 1)
        } else {
            Seq::empty()
        };
        seq![content.take(n)] + split_lines(rest)
    }
}

/// The `parts` one after the other, with `separator` between each two.
pub open spec fn join(parts: Seq<Seq<char>>, separator: Seq<char>) -> Seq<char>
    decreases parts.len(),
{
    if parts.len() == 0 {
        Seq::empty()
    } else if parts.len() == 1 {
        parts[0]
    } else {
        join(parts.drop_last(), separator) + separator + parts.last()
    }
}

/// The character of the digit `d`.
pub open spec fn digit_char(d: nat) -> char {
    if d == 0 {
        '0'
    } else if d == 1 {
        '1'
    } else if d == 2 {
        '2'
    } else if d == 3 {
        '3'
    } else if d == 4 {
        '4'
    } else if d == 5 {
        '5'
    } else if d == 6 {
        '6'
    } else if d == 7 {
        '7'
    } else if d == 8 {
        '8'
    } else {
        '9'
    }
}

/// The digits of `n` in base ten, the first of them not zero; none for zero.
pub open spec fn digits_of(n: nat) -> Seq<char>
    decreases n,
{
    if n == 0 {
        Seq::empty()
    } else {
        digits_of(n / 10).push(digit_char(n % 10))
    }
}

/// `n` written in base ten.
pub open spec fn decimal(n: nat) -> Seq<char> {
    if n == 0 {
        seq!['0']
    } else {
        digits_of(n)
    }
}

/// The characters of `digits`, which are given from the last to the first.
pub open spec fn digits_text(digits: Seq<u8>) -> Seq<char> {
    Seq::new(digits.len(), |i: int| digit_char(digits[digits.len() - 1 - i] as nat))
}

/// The views of `strings`, in order.
pub open spec fn string_views(strings: Seq<String>) -> Seq<Seq<char>> {
    strings.map_values(|s: String| s@)
}

/// The views of `patterns`, in order.
pub open spec fn pattern_views(patterns: Seq<Vec<char>>) -> Seq<Seq<char>> {
    patterns.map_values(|p: Vec<char>| p@)
}

/// What `trim_start` takes off is whitespace, and what it leaves does not begin with any.
pub proof fn lemma_trim_start(s: Seq<char>) -> (k: int)
    ensures
        0 <= k <= s.len(),
        trim_start(s) == s.skip(k),
        forall|i: int| 0 <= i < k ==> is_whitespace(#[trigger] s[i]),
        k < s.len() ==> !is_whitespace(s[k]),
    decreases s.len(),
{
    if s.len() > 0 && is_whitespace(s[0]) {
        let tail = s.skip(1);
        let k: int = lemma_trim_start(tail);
        assert forall|i: int| 0 <= i < k + 1 implies is_whitespace(#[trigger] s[i]) by {
            if i > 0 {
                assert(s[i] == tail[i - 1]);
            }
        }
        k + 1
    } else {
        0
    }
}

/// What `trim_end` takes off is whitespace, and what it leaves does not end with any.
pub proof fn lemma_trim_end(s: Seq<char>) -> (k: int)
    ensures
        0 <= k <= s.len(),
        trim_end(s) == s.take(k),
        forall|i: int| k <= i < s.len() ==> is_whitespace(#[trigger] s[i]),
        k > 0 ==> !is_whitespace(s[k - 1]),
    decreases s.len(),
{
    if s.len() > 0 && is_whitespace(s.last()) {
        let front = s.drop_last();
        let k: int = lemma_trim_end(front);
        assert forall|i: int| k <= i < s.len() implies is_whitespace(#[trigger] s[i]) by {
            if i < s.len() - 1 {
                assert(s[i] == front[i]);
            }
        }
        k
    } else {
        s.len() as int
    }
}

/// Nothing is left of a text when it is trimmed exactly if it is blank.
pub proof fn lemma_trim_of_blank(s: Seq<char>)
    ensures
        trim(s).len() == 0 <==> is_blank(s),
{
    let lo: int = lemma_trim_start(s);
    let rest = s.skip(lo);
    let hi: int = lemma_trim_end(rest);
    if !is_blank(s) {
        let p: int = choose|p: int| 0 <= p < s.len() && !is_whitespace(s[p]);
        if hi <= p - lo {
            assert(is_whitespace(rest[p - lo]));
        }
    }
}

/// `first_line_len` is the offset of the first line feed, or the length.
pub proof fn lemma_first_line_len(content: Seq<char>)
    ensures
        first_line_len(content) <= content.len(),
        forall|i: int| 0 <= i < first_line_len(content) ==> content[i] != '\n',
        first_line_len(content) < content.len() ==> content[first_line_len(content) as int]
            == '\n',
    decreases content.len(),
{
    if content.len() > 0 && content[0] != '\n' {
        let tail = content.skip(1);
        lemma_first_line_len(tail);
        assert forall|i: int| 0 <= i < first_line_len(content) implies content[i] != '\n' by {
            if i > 0 {
                assert(content[i] == tail[i - 1]);
            }
        }
    }
}

/// An offset before which no line feed stands, and which is the end of
/// `content` or holds a line feed, is `first_line_len`.
pub proof fn lemma_first_line_len_is(content: Seq<char>, n: int)
    requires
        0 <= n <= content.len(),
        forall|i: int| 0 <= i < n ==> content[i] != '\n',
        n < content.len() ==> content[n] == '\n',
    ensures
        first_line_len(content) == n,
{
    lemma_first_line_len(content);
}

/// The characters of `s`, in order.
pub fn chars_of(s: &str) -> (chars: Vec<char>)
    ensures
        chars@ == s@,
{
    let mut chars: Vec<char> = Vec::new();
    for c in it: s.chars()
        invariant
            it.seq() == s@,
            chars@ == s@.take(it.index() as int),
    {
        chars.push(c);
    }
    chars
}

/// The characters of each of `strings`, in order.
pub fn chars_of_all(strings: &Vec<String>) -> (all: Vec<Vec<char>>)
    ensures
        pattern_views(all@) == string_views(strings@),
{
    let mut all: Vec<Vec<char>> = Vec::new();
    let mut i: usize = 0;
    while i < strings.len()
        invariant
            i <= strings@.len(),
            all@.len() == i,
            forall|k: int| 0 <= k < i ==> (#[trigger] all@[k])@ == strings@[k]@,
        decreases strings.len() - i,
    {
        all.push(chars_of(strings[i].as_str()));
        i += 1;
    }
    all
}

/// Whether `c` is whitespace.
pub fn char_is_whitespace(c: char) -> (b: bool)
    ensures
        b == is_whitespace(c),
{
    let n: u32 = c as u32;
    (0x09 <= n && n <= 0x0D) || n == 0x20 || n == 0x85 || n == 0xA0 || n == 0x1680 || (0x2000 <= n
        && n <= 0x200A) || n == 0x2028 || n == 0x2029 || n == 0x202F || n == 0x205F || n == 0x3000
}

/// The part of `text` that is left when the whitespace at both ends is taken off.
pub fn trimmed(text: &[char]) -> (inner: &[char])
    ensures
        inner@ == trim(text@),
{
    let n: usize = text.len();
    let mut lo: usize = 0;
    assert(text@.skip(0) =~= text@);
    while lo < n && char_is_whitespace(text[lo])
        invariant
            lo <= n,
            n == text@.len(),
            trim_start(text@) == trim_start(text@.skip(lo as int)),
        decreases n - lo,
    {
        assert(text@.skip(lo as int).skip(1) =~= text@.skip(lo + 1));
        lo += 1;
    }
    let mut hi: usize = n;
    while hi > lo && char_is_whitespace(text[hi - 1])
        invariant
            lo <= hi <= n,
            n == text@.len(),
            trim(text@) == trim_end(text@.subrange(lo as int, hi as int)),
        decreases hi,
    {
        assert(text@.subrange(lo as int, hi as int).drop_last() =~= text@.subrange(
            lo as int,
            hi - 1,
        ));
        hi -= 1;
    }
    slice_subrange(text, lo, hi)
}

/// Whether `pattern` stands in `text` at offset `at`.
pub fn matches_at(text: &[char], pattern: &[char], at: usize) -> (found: bool)
    ensures
        found == occurs_at(text@, pattern@, at as int),
{
    let n: usize = text.len();
    let m: usize = pattern.len();
    if at > n || m > n - at {
        return false;
    }
    let mut k: usize = 0;
    while k < m
        invariant
            k <= m,
            m == pattern@.len(),
            n == text@.len(),
            at + m <= n,
            forall|j: int| 0 <= j < k ==> text@[at + j] == pattern@[j],
        decreases m - k,
    {
        if text[at + k] != pattern[k] {
            return false;
        }
        k += 1;
    }
    assert(text@.subrange(at as int, at + m) =~= pattern@);
    true
}

/// Whether `text` begins with `pattern`.
pub fn slice_starts_with(text: &[char], pattern: &[char]) -> (found: bool)
    ensures
        found == starts_with(text@, pattern@),
{
    matches_at(text, pattern, 0)
}

/// Whether `text` ends with `pattern`.
pub fn slice_ends_with(text: &[char], pattern: &[char]) -> (found: bool)
    ensures
        found == ends_with(text@, pattern@),
{
    pattern.len() <= text.len() && matches_at(text, pattern, text.len() - pattern.len())
}

/// Whether `pattern` stands somewhere in `text`.
pub fn slice_contains(text: &[char], pattern: &[char]) -> (found: bool)
    ensures
        found == contains(text@, pattern@),
{
    if pattern.len() > text.len() {
        return false;
    }
    let last: usize = text.len() - pattern.len();
    let mut at: usize = 0;
    while at < last
        invariant
            at <= last,
            last == text@.len() - pattern@.len(),
            forall|k: int| 0 <= k < at ==> !occurs_at(text@, pattern@, k),
        decreases last - at,
    {
        if matches_at(text, pattern, at) {
            return true;
        }
        at += 1;
    }
    matches_at(text, pattern, last)
}

/// Whether `text` begins with one of `patterns`.
pub fn slice_starts_with_any(text: &[char], patterns: &Vec<Vec<char>>) -> (found: bool)
    ensures
        found == starts_with_any(text@, pattern_views(patterns@)),
{
    let mut i: usize = 0;
    while i < patterns.len()
        invariant
            i <= patterns@.len(),
            forall|k: int| 0 <= k < i ==> !starts_with(text@, #[trigger] pattern_views(patterns@)[k]),
        decreases patterns.len() - i,
    {
        if slice_starts_with(text, patterns[i].as_slice()) {
            assert(starts_with(text@, pattern_views(patterns@)[i as int]));
            return true;
        }
        i += 1;
    }
    false
}

/// Whether `text` ends with one of `patterns`.
pub fn slice_ends_with_any(text: &[char], patterns: &Vec<Vec<char>>) -> (found: bool)
    ensures
        found == ends_with_any(text@, pattern_views(patterns@)),
{
    let mut i: usize = 0;
    while i < patterns.len()
        invariant
            i <= patterns@.len(),
            forall|k: int| 0 <= k < i ==> !ends_with(text@, #[trigger] pattern_views(patterns@)[k]),
        decreases patterns.len() - i,
    {
        if slice_ends_with(text, patterns[i].as_slice()) {
            assert(ends_with(text@, pattern_views(patterns@)[i as int]));
            return true;
        }
        i += 1;
    }
    false
}

/// Whether one of `patterns` stands somewhere in `text`.
pub fn slice_contains_any(text: &[char], patterns: &Vec<Vec<char>>) -> (found: bool)
    ensures
        found == contains_any(text@, pattern_views(patterns@)),
{
    let mut i: usize = 0;
    while i < patterns.len()
        invariant
            i <= patterns@.len(),
            forall|k: int| 0 <= k < i ==> !contains(text@, #[trigger] pattern_views(patterns@)[k]),
        decreases patterns.len() - i,
    {
        if slice_contains(text, patterns[i].as_slice()) {
            assert(contains(text@, pattern_views(patterns@)[i as int]));
            return true;
        }
        i += 1;
    }
    false
}

/// The offset at or after `start` at which the line that begins at `start` ends.
pub(crate) fn line_end(content: &[char], start: usize) -> (end: usize)
    requires
        start <= content@.len(),
    ensures
        start <= end <= content@.len(),
        end - start == first_line_len(content@.skip(start as int)),
{
    let n: usize = content.len();
    let mut end: usize = start;
    while end < n && content[end] != '\n'
        invariant
            start <= end <= n,
            n == content@.len(),
            forall|i: int| start <= i < end ==> content@[i] != '\n',
        decreases n - end,
    {
        end += 1;
    }
    proof {
        lemma_first_line_len_is(content@.skip(start as int), end - start);
    }
    end
}

/// The `parts` one after the other, with `separator` between each two.
pub fn join_strings(parts: &Vec<String>, separator: &str) -> (joined: String)
    ensures
        joined@ == join(string_views(parts@), separator@),
{
    let mut joined = String::new();
    let mut i: usize = 0;
    while i < parts.len()
        invariant
            i <= parts@.len(),
            joined@ == join(string_views(parts@).take(i as int), separator@),
        decreases parts.len() - i,
    {
        if i > 0 {
            joined.append(separator);
        }
        joined.append(parts[i].as_str());
        proof {
            let views = string_views(parts@);
            assert(views.take(i + 1).drop_last() =~= views.take(i as int));
        }
        i += 1;
    }
    assert(string_views(parts@).take(parts@.len() as int) =~= string_views(parts@));
    joined
}

/// The digit `d` as text.
fn digit_text(d: u8) -> (text: &'static str)
    requires
        d < 10,
    ensures
        text@ == seq![digit_char(d as nat)],
{
    proof {
        reveal_strlit("0");
        reveal_strlit("1");
        reveal_strlit("2");
        reveal_strlit("3");
        reveal_strlit("4");
        reveal_strlit("5");
        reveal_strlit("6");
        reveal_strlit("7");
        reveal_strlit("8");
        reveal_strlit("9");
    }
    if d == 0 {
        "0"
    } else if d == 1 {
        "1"
    } else if d == 2 {
        "2"
    } else if d == 3 {
        "3"
    } else if d == 4 {
        "4"
    } else if d == 5 {
        "5"
    } else if d == 6 {
        "6"
    } else if d == 7 {
        "7"
    } else if d == 8 {
        "8"
    } else {
        "9"
    }
}

/// `n` written in base ten.
pub fn decimal_string(n: u64) -> (text: String)
    ensures
        text@ == decimal(n as nat),
{
    let mut text = String::new();
    if n == 0 {
        text.append("0");
        proof {
            reveal_strlit("0");
        }
        return text;
    }
    let mut digits: Vec<u8> = Vec::new();
    let mut rest: u64 = n;
    while rest > 0
        invariant
            digits_of(n as nat) == digits_of(rest as nat) + digits_text(digits@),
            forall|i: int| 0 <= i < digits@.len() ==> digits@[i] < 10,
        decreases rest,
    {
        let d: u8 = (rest % 10) as u8;
        digits.push(d);
        rest = rest / 10;
    }
    let mut i: usize = digits.len();
    while i > 0
        invariant
            i <= digits@.len(),
            forall|k: int| 0 <= k < digits@.len() ==> digits@[k] < 10,
            text@ == digits_text(digits@).take(digits@.len() - i),
        decreases i,
    {
        i -= 1;
        text.append(digit_text(digits[i]));
    }
    text
}

} // verus!
