//! Text as sequences of characters: the string operations that the library
//! needs, each stated over `Seq<char>`.

use vstd::prelude::*;
use vstd::string::StringExecFns;

verus! {

/// `String::push` appends one character.
pub assume_specification[ String::push ](s: &mut String, c: char)
    ensures
        final(s)@ == old(s)@.push(c),
;

/// The character for a decimal digit.
pub open spec fn digit(d: nat) -> char {
    ('0' as u32 + d) as char
}

/// The decimal digits of `n`, without leading zeros.
pub open spec fn decimal(n: nat) -> Seq<char>
    decreases n,
{
    if n < 10 {
        seq![digit(n)]
    } else {
        decimal(n / 10).push(digit(n % 10))
    }
}

/// The decimal digits of `n`, with a sign where it is negative.
pub open spec fn signed_decimal(n: int) -> Seq<char> {
    if n < 0 {
        seq!['-'] + decimal((-n) as nat)
    } else {
        decimal(n as nat)
    }
}

fn digit_char(d: u8) -> (c: char)
    requires
        d < 10,
    ensures
        c == digit(d as nat),
{
    (48 + d) as char
}

/// `n` in decimal.
pub fn decimal_of(n: u64) -> (s: String)
    ensures
        s@ == decimal(n as nat),
    decreases n,
{
    if n < 10 {
        let mut s = String::new();
        s.push(digit_char(n as u8));
        assert(s@ =~= decimal(n as nat));
        s
    } else {
        let mut s = decimal_of(n / 10);
        s.push(digit_char((n % 10) as u8));
        s
    }
}

/// `n` in decimal, with a sign where it is negative.
pub fn signed_decimal_of(n: i64) -> (s: String)
    ensures
        s@ == signed_decimal(n as int),
{
    if n >= 0 {
        decimal_of(n as u64)
    } else {
        let mut s = String::new();
        s.push('-');
        let m: u64 = if n == i64::MIN {
            0x8000_0000_0000_0000
        } else {
            (-n) as u64
        };
        let d = decimal_of(m);
        s.append(d.as_str());
        assert(s@ =~= signed_decimal(n as int));
        s
    }
}

/// The characters of `s`.
pub fn chars_of(s: &str) -> (out: Vec<char>)
    ensures
        out@ == s@,
{
    let mut out: Vec<char> = Vec::new();
    for c in it: s.chars()
        invariant
            it.seq() == s@,
            out@ == s@.subrange(0, it.index()),
    {
        out.push(c);
        assert(out@ =~= s@.subrange(0, it.index() + 1));
    }
    assert(out@ =~= s@);
    out
}

/// The string made of `chars`.
pub fn string_of(chars: &[char]) -> (out: String)
    ensures
        out@ == chars@,
{
    let mut out = String::new();
    let mut i: usize = 0;
    while i < chars.len()
        invariant
            i <= chars@.len(),
            out@ == chars@.subrange(0, i as int),
        decreases chars@.len() - i,
    {
        out.push(chars[i]);
        i = i + 1;
        assert(out@ =~= chars@.subrange(0, i as int));
    }
    assert(out@ =~= chars@);
    out
}

/// The string made of the characters of `chars` from `from` up to `to`.
pub fn string_of_range(chars: &[char], from: usize, to: usize) -> (out: String)
    requires
        from <= to <= chars@.len(),
    ensures
        out@ == chars@.subrange(from as int, to as int),
{
    string_of(vstd::slice::slice_subrange(chars, from, to))
}

/// Whether two strings hold the same characters.
pub fn same_text(a: &str, b: &str) -> (same: bool)
    ensures
        same == (a@ == b@),
{
    let x = chars_of(a);
    let y = chars_of(b);
    same_chars(x.as_slice(), y.as_slice())
}

/// Whether two character strings are equal.
pub fn same_chars(a: &[char], b: &[char]) -> (same: bool)
    ensures
        same == (a@ == b@),
{
    if a.len() != b.len() {
        return false;
    }
    let mut i: usize = 0;
    while i < a.len()
        invariant
            i <= a@.len(),
            a@.len() == b@.len(),
            forall|j: int| 0 <= j < i ==> a@[j] == b@[j],
        decreases a@.len() - i,
    {
        if a[i] != b[i] {
            return false;
        }
        i = i + 1;
    }
    assert(a@ =~= b@);
    true
}

/// `a` followed by `b`.
pub fn concat2(a: &str, b: &str) -> (out: String)
    ensures
        out@ == a@ + b@,
{
    let mut out = String::new();
    out.append(a);
    out.append(b);
    assert(out@ =~= a@ + b@);
    out
}

/// `a`, `b` and `c` one after the other.
pub fn concat3(a: &str, b: &str, c: &str) -> (out: String)
    ensures
        out@ == a@ + b@ + c@,
{
    let mut out = concat2(a, b);
    out.append(c);
    out
}

/// Whether `p` stands in `s` at position `i`.
pub open spec fn stands_at(s: Seq<char>, p: Seq<char>, i: int) -> bool {
    0 <= i && i + p.len() <= s.len() && s.subrange(i, i + p.len()) == p
}

/// Whether `s` begins with `p`.
pub open spec fn starts_with(s: Seq<char>, p: Seq<char>) -> bool {
    stands_at(s, p, 0)
}

/// Whether `p` occurs somewhere in `s`.
pub open spec fn contains(s: Seq<char>, p: Seq<char>) -> bool {
    exists|i: int| stands_at(s, p, i)
}

/// Whether `p` stands in `s` at `i`.
pub fn stands_at_exec(s: &[char], p: &[char], i: usize) -> (yes: bool)
    ensures
        yes == stands_at(s@, p@, i as int),
{
    if i > s.len() || s.len() - i < p.len() {
        return false;
    }
    same_chars(vstd::slice::slice_subrange(s, i, i + p.len()), p)
}

/// Whether `s` begins with `p`.
pub fn has_prefix(s: &str, p: &str) -> (yes: bool)
    ensures
        yes == starts_with(s@, p@),
{
    let x = chars_of(s);
    let y = chars_of(p);
    stands_at_exec(x.as_slice(), y.as_slice(), 0)
}

/// Whether `p` occurs in `s`.
pub fn has_infix(s: &str, p: &str) -> (yes: bool)
    ensures
        yes == contains(s@, p@),
{
    let x = chars_of(s);
    let y = chars_of(p);
    let mut i: usize = 0;
    loop
        invariant
            i <= x@.len(),
            x@ == s@,
            y@ == p@,
            forall|j: int| 0 <= j < i ==> !stands_at(s@, p@, j),
        decreases x@.len() - i,
    {
        if stands_at_exec(x.as_slice(), y.as_slice(), i) {
            return true;
        }
        if i == x.len() {
            assert forall|j: int| !stands_at(s@, p@, j) by {
                if 0 <= j < i {
                }
            }
            return false;
        }
        i = i + 1;
    }
}

/// Unicode's `White_Space` characters.
pub open spec fn is_space(c: char) -> bool {
    ||| '\u{9}' <= c <= '\u{d}'
    ||| c == '\u{20}'
    ||| c == '\u{85}'
    ||| c == '\u{a0}'
    ||| c == '\u{1680}'
    ||| '\u{2000}' <= c <= '\u{200a}'
    ||| c == '\u{2028}'
    ||| c == '\u{2029}'
    ||| c == '\u{202f}'
    ||| c == '\u{205f}'
    ||| c == '\u{3000}'
}

/// Whether `c` is white space.
pub fn is_space_exec(c: char) -> (yes: bool)
    ensures
        yes == is_space(c),
{
    ('\u{9}' <= c && c <= '\u{d}') || c == '\u{20}' || c == '\u{85}' || c == '\u{a0}' || c
        == '\u{1680}' || ('\u{2000}' <= c && c <= '\u{200a}') || c == '\u{2028}' || c == '\u{2029}'
        || c == '\u{202f}' || c == '\u{205f}' || c == '\u{3000}'
}

/// The position of the first character of `s`, from `i` on, that is no white
/// space; the length of `s` where there is none.
pub open spec fn skip_spaces(s: Seq<char>, i: int) -> int
    decreases s.len() - i,
{
    if 0 <= i < s.len() && is_space(s[i]) {
        skip_spaces(s, i + 1)
    } else {
        i
    }
}

/// The position of the first white space of `s` from `i` on; the length of `s`
/// where there is none.
pub open spec fn skip_word(s: Seq<char>, i: int) -> int
    decreases s.len() - i,
{
    if 0 <= i < s.len() && !is_space(s[i]) {
        skip_word(s, i + 1)
    } else {
        i
    }
}

/// `s` without white space at its end.
pub open spec fn trim_end(s: Seq<char>) -> Seq<char>
    decreases s.len(),
{
    if s.len() > 0 && is_space(s.last()) {
        trim_end(s.drop_last())
    } else {
        s
    }
}

/// `s` without white space at either end.
pub open spec fn trim(s: Seq<char>) -> Seq<char> {
    trim_end(s.subrange(skip_spaces(s, 0), s.len() as int))
}

/// `skip_spaces` and `skip_word` stop within the string.
pub proof fn skip_in_bounds(s: Seq<char>, i: int)
    requires
        0 <= i <= s.len(),
    ensures
        i <= skip_spaces(s, i) <= s.len(),
        i <= skip_word(s, i) <= s.len(),
        skip_spaces(s, i) < s.len() ==> !is_space(s[skip_spaces(s, i)]),
        skip_word(s, i) < s.len() ==> is_space(s[skip_word(s, i)]),
    decreases s.len() - i,
{
    if i < s.len() {
        skip_in_bounds(s, i + 1);
    }
}

fn skip_spaces_exec(s: &[char], start: usize) -> (p: usize)
    requires
        start <= s@.len(),
    ensures
        p == skip_spaces(s@, start as int),
        start <= p <= s@.len(),
{
    let mut i: usize = start;
    while i < s.len() && is_space_exec(s[i])
        invariant
            start <= i <= s@.len(),
            skip_spaces(s@, start as int) == skip_spaces(s@, i as int),
        decreases s@.len() - i,
    {
        i = i + 1;
    }
    i
}

fn skip_word_exec(s: &[char], start: usize) -> (p: usize)
    requires
        start <= s@.len(),
    ensures
        p == skip_word(s@, start as int),
        start <= p <= s@.len(),
{
    let mut i: usize = start;
    while i < s.len() && !is_space_exec(s[i])
        invariant
            start <= i <= s@.len(),
            skip_word(s@, start as int) == skip_word(s@, i as int),
        decreases s@.len() - i,
    {
        i = i + 1;
    }
    i
}

/// `s` without white space at either end.
pub fn trimmed(s: &str) -> (out: String)
    ensures
        out@ == trim(s@),
{
    let x = chars_of(s);
    let from: usize = skip_spaces_exec(x.as_slice(), 0);
    let ghost tail = x@.subrange(from as int, x@.len() as int);
    let mut to: usize = x.len();
    while to > from && is_space_exec(x[to - 1])
        invariant
            from <= to <= x@.len(),
            trim_end(tail) == trim_end(x@.subrange(from as int, to as int)),
        decreases to - from,
    {
        proof {
            let cur = x@.subrange(from as int, to as int);
            assert(cur.drop_last() =~= x@.subrange(from as int, to - 1));
        }
        to = to - 1;
    }
    let out = string_of_range(x.as_slice(), from, to);
    proof {
        let cur = x@.subrange(from as int, to as int);
        assert(trim_end(cur) == cur);
    }
    out
}

/// The words of `s` from position `i` on: the longest runs without white space.
pub open spec fn words_from(s: Seq<char>, i: int) -> Seq<Seq<char>>
    decreases s.len() - i,
{
    if 0 <= i {
        let a = skip_spaces(s, i);
        let b = skip_word(s, a);
        if i <= a < b && b <= s.len() {
            seq![s.subrange(a, b)] + words_from(s, b)
        } else {
            Seq::empty()
        }
    } else {
        Seq::empty()
    }
}

/// The words of `s`.
pub open spec fn words(s: Seq<char>) -> Seq<Seq<char>> {
    words_from(s, 0)
}

/// The views of a list of strings.
pub open spec fn texts(v: Seq<String>) -> Seq<Seq<char>> {
    Seq::new(v.len(), |i: int| v[i]@)
}

/// The words of `s`.
pub fn split_words(s: &str) -> (out: Vec<String>)
    ensures
        texts(out@) == words(s@),
{
    let x = chars_of(s);
    let mut out: Vec<String> = Vec::new();
    let mut i: usize = 0;
    loop
        invariant
            i <= x@.len(),
            x@ == s@,
            texts(out@) + words_from(s@, i as int) == words(s@),
        decreases x@.len() - i,
    {
        proof {
            skip_in_bounds(s@, i as int);
        }
        let a: usize = skip_spaces_exec(x.as_slice(), i);
        let b: usize = skip_word_exec(x.as_slice(), a);
        if a == x.len() {
            assert(words_from(s@, i as int) =~= Seq::empty());
            assert(texts(out@) =~= words(s@));
            return out;
        }
        let ghost before = out@;
        out.push(string_of_range(x.as_slice(), a, b));
        proof {
            skip_in_bounds(s@, a as int);
            assert(skip_word(s@, a as int) == skip_word(s@, a + 1));
            skip_in_bounds(s@, a + 1);
            assert(texts(out@) =~= texts(before).push(s@.subrange(a as int, b as int)));
            assert(texts(out@) + words_from(s@, b as int) =~= texts(before) + words_from(
                s@,
                i as int,
            ));
        }
        i = b;
    }
}

/// The position of the first `c` in `s` from `i` on; the length of `s` where
/// there is none.
pub open spec fn find_char(s: Seq<char>, c: char, i: int) -> int
    decreases s.len() - i,
{
    if 0 <= i < s.len() && s[i] != c {
        find_char(s, c, i + 1)
    } else {
        i
    }
}

/// `find_char` stops within the string, at the character it looks for.
pub proof fn find_char_in_bounds(s: Seq<char>, c: char, i: int)
    requires
        0 <= i <= s.len(),
    ensures
        i <= find_char(s, c, i) <= s.len(),
        find_char(s, c, i) < s.len() ==> s[find_char(s, c, i)] == c,
        forall|j: int| i <= j < find_char(s, c, i) ==> s[j] != c,
    decreases s.len() - i,
{
    if i < s.len() && s[i] != c {
        find_char_in_bounds(s, c, i + 1);
    }
}

/// The position of the first `c` in `s` from `start` on.
pub fn find_char_exec(s: &[char], c: char, start: usize) -> (p: usize)
    requires
        start <= s@.len(),
    ensures
        p == find_char(s@, c, start as int),
        start <= p <= s@.len(),
{
    let mut i: usize = start;
    while i < s.len() && s[i] != c
        invariant
            start <= i <= s@.len(),
            find_char(s@, c, start as int) == find_char(s@, c, i as int),
        decreases s@.len() - i,
    {
        i = i + 1;
    }
    i
}

/// The parts of `s` from position `i` on between occurrences of `sep`.
pub open spec fn split_from(s: Seq<char>, sep: char, i: int) -> Seq<Seq<char>>
    decreases s.len() - i,
{
    if 0 <= i <= s.len() {
        let p = find_char(s, sep, i);
        if i <= p < s.len() {
            seq![s.subrange(i, p)] + split_from(s, sep, p + 1)
        } else {
            seq![s.subrange(i, s.len() as int)]
        }
    } else {
        Seq::empty()
    }
}

/// The parts of `s` between occurrences of `sep`.
pub open spec fn split(s: Seq<char>, sep: char) -> Seq<Seq<char>> {
    split_from(s, sep, 0)
}

/// The parts of `s` between occurrences of `sep`.
pub fn split_on(s: &str, sep: char) -> (out: Vec<String>)
    ensures
        texts(out@) == split(s@, sep),
        out@.len() >= 1,
{
    let x = chars_of(s);
    let mut out: Vec<String> = Vec::new();
    let mut i: usize = 0;
    loop
        invariant
            i <= x@.len(),
            x@ == s@,
            texts(out@) + split_from(s@, sep, i as int) == split(s@, sep),
        decreases x@.len() - i,
    {
        let p: usize = find_char_exec(x.as_slice(), sep, i);
        let ghost before = out@;
        if p == x.len() {
            out.push(string_of_range(x.as_slice(), i, p));
            assert(texts(out@) =~= texts(before).push(s@.subrange(i as int, p as int)));
            assert(texts(out@) =~= split(s@, sep));
            return out;
        }
        out.push(string_of_range(x.as_slice(), i, p));
        proof {
            assert(texts(out@) =~= texts(before).push(s@.subrange(i as int, p as int)));
            assert(texts(out@) + split_from(s@, sep, p + 1) =~= texts(before) + split_from(
                s@,
                sep,
                i as int,
            ));
        }
        i = p + 1;
    }
}

/// A line without the carriage return that may end it.
pub open spec fn chomp(line: Seq<char>) -> Seq<char> {
    if line.len() > 0 && line.last() == '\r' {
        line.drop_last()
    } else {
        line
    }
}

/// The lines of `s` from position `i` on. A line ends at a line feed, which may
/// follow a carriage return; what follows the last line feed is a line unless
/// it is empty, and keeps a carriage return at its end.
pub open spec fn lines_from(s: Seq<char>, i: int) -> Seq<Seq<char>>
    decreases s.len() - i,
{
    if 0 <= i < s.len() {
        let p = find_char(s, '\n', i);
        if i <= p < s.len() {
            seq![chomp(s.subrange(i, p))] + lines_from(s, p + 1)
        } else {
            seq![s.subrange(i, s.len() as int)]
        }
    } else {
        Seq::empty()
    }
}

/// The lines of `s`.
pub open spec fn lines(s: Seq<char>) -> Seq<Seq<char>> {
    lines_from(s, 0)
}

/// A line that is appended to whole lines becomes the last line.
pub proof fn line_appended(s: Seq<char>, line: Seq<char>, k: int)
    requires
        0 <= k <= s.len(),
        s.len() > 0 ==> s.last() == '\n',
        forall|i: int| 0 <= i < line.len() ==> line[i] != '\n',
        line.len() > 0 ==> line.last() != '\r',
    ensures
        lines_from(s + line + seq!['\n'], k) == lines_from(s, k).push(line),
    decreases s.len() - k,
{
    let w = s + line + seq!['\n'];
    if k == s.len() {
        let p = k + line.len();
        assert(forall|j: int| k <= j < p ==> w[j] == line[j - k]);
        find_char_is(w, '\n', k, p as int);
        assert(w.subrange(k, p as int) =~= line);
        assert(lines_from(w, w.len() as int) =~= Seq::empty());
        assert(lines_from(w, k) =~= seq![line]);
        assert(lines_from(s, k).push(line) =~= seq![line]);
    } else {
        find_char_in_bounds(s, '\n', k);
        let p = find_char(s, '\n', k);
        assert(p < s.len()) by {
            assert(s[s.len() - 1] == '\n');
        }
        find_char_is(w, '\n', k, p);
        assert(w.subrange(k, p) =~= s.subrange(k, p));
        line_appended(s, line, p + 1);
        assert(lines_from(w, k) =~= lines_from(s, k).push(line));
    }
}

proof fn find_char_is(s: Seq<char>, c: char, i: int, p: int)
    requires
        0 <= i <= p < s.len(),
        s[p] == c,
        forall|j: int| i <= j < p ==> s[j] != c,
    ensures
        find_char(s, c, i) == p,
    decreases p - i,
{
    if i < p {
        find_char_is(s, c, i + 1, p);
    }
}

/// The lines of `s`.
pub fn split_lines(s: &str) -> (out: Vec<String>)
    ensures
        texts(out@) == lines(s@),
{
    let x = chars_of(s);
    let mut out: Vec<String> = Vec::new();
    let mut i: usize = 0;
    while i < x.len()
        invariant
            i <= x@.len(),
            x@ == s@,
            texts(out@) + lines_from(s@, i as int) == lines(s@),
        decreases x@.len() - i,
    {
        let p: usize = find_char_exec(x.as_slice(), '\n', i);
        let ghost before = out@;
        if p == x.len() {
            out.push(string_of_range(x.as_slice(), i, p));
            assert(texts(out@) =~= texts(before).push(s@.subrange(i as int, p as int)));
            assert(texts(out@) =~= lines(s@));
            return out;
        }
        let ghost raw = s@.subrange(i as int, p as int);
        if p > i && x[p - 1] == '\r' {
            assert(raw.last() == '\r');
            assert(raw.drop_last() =~= s@.subrange(i as int, p - 1));
            out.push(string_of_range(x.as_slice(), i, p - 1));
        } else {
            assert(p > i ==> raw.last() == s@[p - 1]);
            out.push(string_of_range(x.as_slice(), i, p));
        }
        proof {
            assert(texts(out@) =~= texts(before).push(chomp(raw)));
            assert(texts(out@) + lines_from(s@, p + 1) =~= texts(before) + lines_from(s@, i as int));
        }
        i = p + 1;
    }
    assert(lines_from(s@, i as int) =~= Seq::empty());
    assert(texts(out@) =~= lines(s@));
    out
}

/// The number that decimal digits stand for, where they are all digits.
pub open spec fn digits_value(s: Seq<char>) -> Option<nat>
    decreases s.len(),
{
    if s.len() == 0 {
        Some(0)
    } else {
        let c = s.last();
        match digits_value(s.drop_last()) {
            Some(n) => if '0' <= c <= '9' {
                Some(n * 10 + (c as u32 - '0' as u32) as nat)
            } else {
                None
            },
            None => None,
        }
    }
}

/// The number that `s` stands for: an optional plus sign and at least one
/// decimal digit, up to `max`.
pub open spec fn parse_number(s: Seq<char>, max: nat) -> Option<nat> {
    let t = if s.len() > 0 && s[0] == '+' {
        s.subrange(1, s.len() as int)
    } else {
        s
    };
    if t.len() == 0 {
        None
    } else {
        match digits_value(t) {
            Some(n) => if n <= max {
                Some(n)
            } else {
                None
            },
            None => None,
        }
    }
}

proof fn digits_prefix_bound(s: Seq<char>, i: int)
    requires
        0 <= i <= s.len(),
        digits_value(s) is Some,
    ensures
        digits_value(s.subrange(0, i)) is Some,
        digits_value(s.subrange(0, i))->0 <= digits_value(s)->0,
    decreases s.len() - i,
{
    if i < s.len() {
        digits_prefix_bound(s, i + 1);
        assert(s.subrange(0, i + 1).drop_last() =~= s.subrange(0, i));
    } else {
        assert(s.subrange(0, i) =~= s);
    }
}

/// The number that `s` stands for, where it is one of at most `max`.
pub fn parse_decimal(s: &str, max: u64) -> (res: Option<u64>)
    ensures
        match parse_number(s@, max as nat) {
            Some(n) => res == Some(n as u64) && n <= max,
            None => res is None,
        },
{
    let x = chars_of(s);
    let start: usize = if x.len() > 0 && x[0] == '+' {
        1
    } else {
        0
    };
    if start == x.len() {
        return None;
    }
    let ghost t = s@.subrange(start as int, s@.len() as int);
    assert(start == 0 ==> t =~= s@);
    let mut v: u64 = 0;
    let mut i: usize = start;
    assert(t.subrange(0, 0) =~= Seq::empty());
    while i < x.len()
        invariant
            start <= i <= x@.len(),
            x@ == s@,
            t == s@.subrange(start as int, s@.len() as int),
            digits_value(t.subrange(0, i - start)) == Some(v as nat),
            v <= max,
            parse_number(s@, max as nat) == (match digits_value(t) {
                Some(n) => if n <= max as nat {
                    Some(n)
                } else {
                    None
                },
                None => None,
            }),
        decreases x@.len() - i,
    {
        let c = x[i];
        let ghost part = t.subrange(0, i + 1 - start);
        assert(part.drop_last() =~= t.subrange(0, i - start));
        assert(part.last() == c);
        proof {
            if digits_value(t) is Some {
                digits_prefix_bound(t, i + 1 - start);
            }
        }
        if c < '0' || c > '9' {
            return None;
        }
        let d: u64 = (c as u32 - 48) as u64;
        if v > max / 10 {
            assert(v * 10 + d > max);
            return None;
        }
        if d > max - v * 10 {
            return None;
        }
        v = v * 10 + d;
        i = i + 1;
    }
    assert(t.subrange(0, i - start) =~= t);
    Some(v)
}

/// The signed 32-bit number that `s` stands for: an optional sign and at least
/// one decimal digit.
pub open spec fn parse_signed(s: Seq<char>) -> Option<int> {
    if s.len() > 0 && s[0] == '-' {
        let t = s.subrange(1, s.len() as int);
        if t.len() > 0 && t[0] == '+' {
            None
        } else {
            match parse_number(t, 0x8000_0000) {
                Some(n) => Some(-(n as int)),
                None => None,
            }
        }
    } else {
        match parse_number(s, 0x7fff_ffff) {
            Some(n) => Some(n as int),
            None => None,
        }
    }
}

/// The signed 32-bit number that `s` stands for.
pub fn parse_i32(s: &str) -> (res: Option<i32>)
    ensures
        match parse_signed(s@) {
            Some(n) => res is Some && res->0 == n,
            None => res is None,
        },
{
    let x = chars_of(s);
    if x.len() > 0 && x[0] == '-' {
        let t = string_of_range(x.as_slice(), 1, x.len());
        if x.len() > 1 && x[1] == '+' {
            return None;
        }
        match parse_decimal(t.as_str(), 0x8000_0000) {
            Some(n) => {
                let m: i64 = -(n as i64);
                Some(m as i32)
            },
            None => None,
        }
    } else {
        match parse_decimal(s, 0x7fff_ffff) {
            Some(n) => Some(n as i32),
            None => None,
        }
    }
}

/// What stands before and after the first `c` in `s`, where there is one.
pub open spec fn cut_at(s: Seq<char>, c: char) -> Option<(Seq<char>, Seq<char>)> {
    let p = find_char(s, c, 0);
    if p < s.len() {
        Some((s.subrange(0, p), s.subrange(p + 1, s.len() as int)))
    } else {
        None
    }
}

/// What stands before and after the first `c` in `s`, where there is one.
pub fn split_once(s: &str, c: char) -> (res: Option<(String, String)>)
    ensures
        match cut_at(s@, c) {
            Some(t) => res matches Some(r) && r.0@ == t.0 && r.1@ == t.1,
            None => res is None,
        },
{
    let x = chars_of(s);
    let p: usize = find_char_exec(x.as_slice(), c, 0);
    if p == x.len() {
        return None;
    }
    Some((string_of_range(x.as_slice(), 0, p), string_of_range(x.as_slice(), p + 1, x.len())))
}

/// The position of the first text `t` in a list from `i` on; the length of the
/// list where there is none.
pub open spec fn find_text(list: Seq<Seq<char>>, t: Seq<char>, i: int) -> int
    decreases list.len() - i,
{
    if 0 <= i < list.len() && list[i] != t {
        find_text(list, t, i + 1)
    } else {
        i
    }
}

/// The position of the first text `t` in a list; its length where there is none.
pub fn position_of(list: &Vec<String>, t: &str) -> (p: usize)
    ensures
        p == find_text(texts(list@), t@, 0),
        p <= list@.len(),
{
    let mut i: usize = 0;
    while i < list.len()
        invariant
            i <= list@.len(),
            find_text(texts(list@), t@, 0) == find_text(texts(list@), t@, i as int),
        decreases list@.len() - i,
    {
        assert(texts(list@)[i as int] == list@[i as int]@);
        if same_text(&list[i], t) {
            return i;
        }
        i = i + 1;
    }
    i
}

/// The number of bytes that a text takes in UTF-8.
pub open spec fn byte_len(s: Seq<char>) -> nat {
    vstd::utf8::encode_utf8(s).len()
}

/// The number of bytes that a text takes.
pub fn byte_len_of(s: &str) -> (n: usize)
    ensures
        n == byte_len(s@),
{
    s.as_bytes().len()
}

/// What is split starts with what stands before the first separator.
pub proof fn split_starts_with(x: Seq<char>, y: Seq<char>, sep: char)
    requires
        forall|i: int| 0 <= i < x.len() ==> x[i] != sep,
    ensures
        split(x + seq![sep] + y, sep).len() > 0,
        split(x + seq![sep] + y, sep)[0] == x,
{
    let w = x + seq![sep] + y;
    find_char_is(w, sep, 0, x.len() as int);
    assert(w.subrange(0, x.len() as int) =~= x);
}

/// A text starts with another exactly where that is a prefix of it.
pub proof fn prefix_is_start(s: Seq<char>, p: Seq<char>)
    ensures
        starts_with(s, p) <==> p.is_prefix_of(s),
        starts_with(s, p) <==> exists|r: Seq<char>| s == #[trigger] (p + r),
{
    if starts_with(s, p) {
        let r = s.subrange(p.len() as int, s.len() as int);
        assert(s =~= p + r);
    }
    if exists|r: Seq<char>| s == #[trigger] (p + r) {
        let r = choose|r: Seq<char>| s == #[trigger] (p + r);
        assert(s.subrange(0, p.len() as int) =~= p);
    }
    if p.is_prefix_of(s) {
        assert(s.subrange(0, p.len() as int) =~= p);
    }
}

/// A text contains another exactly where it is made of something, that, and something.
pub proof fn contained_is_between(s: Seq<char>, p: Seq<char>)
    ensures
        contains(s, p) <==> exists|a: Seq<char>, b: Seq<char>| s == #[trigger] (a + p + b),
{
    if contains(s, p) {
        let i = choose|i: int| stands_at(s, p, i);
        let a = s.subrange(0, i);
        let b = s.subrange(i + p.len(), s.len() as int);
        assert(s =~= a + p + b);
    }
    if exists|a: Seq<char>, b: Seq<char>| s == #[trigger] (a + p + b) {
        let (a, b) = choose|a: Seq<char>, b: Seq<char>| s == #[trigger] (a + p + b);
        assert(s.subrange(a.len() as int, (a.len() + p.len()) as int) =~= p);
        assert(stands_at(s, p, a.len() as int));
    }
}

/// The decimal digits of a number read back as the number, and none of them leads with
/// a zero but the zero itself.
pub proof fn decimal_round_trip(n: nat)
    ensures
        digits_value(decimal(n)) == Some(n),
        decimal(n).len() > 0,
        decimal(n)[0] == '0' <==> n == 0,
        decimal(n)[0] != '+' && decimal(n)[0] != '-',
    decreases n,
{
    let s = decimal(n);
    if n < 10 {
        assert(s.drop_last() =~= Seq::empty());
        assert(digits_value(s.drop_last()) == Some(0nat));
    } else {
        decimal_round_trip(n / 10);
        assert(s.drop_last() =~= decimal(n / 10));
        assert(s[0] == decimal(n / 10)[0]);
    }
}

/// What is trimmed has no white space at its ends, and only white space was taken off.
pub proof fn trimming_takes_space(s: Seq<char>)
    ensures
        ({
            let t = trim(s);
            &&& t.len() > 0 ==> !is_space(t[0]) && !is_space(t.last())
            &&& exists|a: Seq<char>, b: Seq<char>|
                s == #[trigger] (a + t + b) && (forall|i: int|
                    0 <= i < a.len() ==> is_space(a[i])) && (forall|i: int|
                    0 <= i < b.len() ==> is_space(b[i]))
        }),
{
    skip_in_bounds(s, 0);
    let k = skip_spaces(s, 0);
    let m = s.subrange(k, s.len() as int);
    let a = s.subrange(0, k);
    spaces_are_skipped(s, 0);
    let b = ends_are_trimmed(m);
    let t = trim(s);
    assert(s =~= a + m);
    assert(a + t + b =~= a + (t + b));
}

proof fn spaces_are_skipped(s: Seq<char>, i: int)
    requires
        0 <= i <= s.len(),
    ensures
        forall|j: int| i <= j < skip_spaces(s, i) ==> is_space(#[trigger] s[j]),
    decreases s.len() - i,
{
    if i < s.len() && is_space(s[i]) {
        spaces_are_skipped(s, i + 1);
    }
}

proof fn ends_are_trimmed(m: Seq<char>) -> (b: Seq<char>)
    ensures
        m == trim_end(m) + b,
        forall|i: int| 0 <= i < b.len() ==> is_space(#[trigger] b[i]),
        trim_end(m).len() > 0 ==> !is_space(trim_end(m).last()) && trim_end(m)[0] == m[0],
    decreases m.len(),
{
    if m.len() > 0 && is_space(m.last()) {
        let b = ends_are_trimmed(m.drop_last());
        assert(trim_end(m) + b.push(m.last()) =~= (trim_end(m) + b).push(m.last()));
        assert(m =~= m.drop_last().push(m.last()));
        b.push(m.last())
    } else {
        assert(m =~= trim_end(m) + Seq::empty());
        Seq::empty()
    }
}

/// A signed number is read back from its decimal digits, where it fits.
pub proof fn signed_round_trip(n: int)
    requires
        i32::MIN <= n <= i32::MAX,
    ensures
        parse_signed(signed_decimal(n)) == Some(n),
{
    let s = signed_decimal(n);
    if n < 0 {
        decimal_round_trip((-n) as nat);
        let t = decimal((-n) as nat);
        assert(s.subrange(1, s.len() as int) =~= t);
    } else {
        decimal_round_trip(n as nat);
    }
}

/// A number is read from decimal digits alone, but for one plus sign before them, and
/// only where it is not too large.
pub proof fn numbers_are_digits(n: nat, max: nat, s: Seq<char>)
    ensures
        n <= max ==> parse_number(decimal(n), max) == Some(n),
        n <= max ==> parse_number(seq!['+'] + decimal(n), max) == Some(n),
        n > max ==> parse_number(decimal(n), max) is None,
        parse_number(s, max) matches Some(v) ==> v <= max,
        s.len() == 0 ==> parse_number(s, max) is None,
        parse_number(s, max) is Some ==> forall|i: int|
            1 <= i < s.len() ==> '0' <= #[trigger] s[i] <= '9',
        parse_number(s, max) is Some ==> s[0] == '+' || '0' <= s[0] <= '9',
{
    decimal_round_trip(n);
    let plus = seq!['+'] + decimal(n);
    assert(plus.subrange(1, plus.len() as int) =~= decimal(n));
    if parse_number(s, max) is Some {
        let t = if s[0] == '+' {
            s.subrange(1, s.len() as int)
        } else {
            s
        };
        only_digits_have_value(t);
        assert forall|i: int| 1 <= i < s.len() implies '0' <= #[trigger] s[i] <= '9' by {
            if s[0] == '+' {
                assert(t[i - 1] == s[i]);
            }
        }
    }
}

proof fn only_digits_have_value(t: Seq<char>)
    requires
        digits_value(t) is Some,
    ensures
        forall|i: int| 0 <= i < t.len() ==> '0' <= #[trigger] t[i] <= '9',
    decreases t.len(),
{
    if t.len() > 0 {
        only_digits_have_value(t.drop_last());
        assert forall|i: int| 0 <= i < t.len() implies '0' <= #[trigger] t[i] <= '9' by {
            if i < t.len() - 1 {
                assert(t.drop_last()[i] == t[i]);
            }
        }
    }
}

/// A number of which the last digit is taken off is the rest, tenfold, and that digit.
pub proof fn digits_are_positional(s: Seq<char>, d: nat)
    requires
        d < 10,
    ensures
        digits_value(Seq::<char>::empty()) == Some(0nat),
        digits_value(s) matches Some(v) ==> digits_value(s.push("0123456789"@[d as int])) == Some(
            10 * v + d,
        ),
        digits_value(s) is None ==> digits_value(s.push("0123456789"@[d as int])) is None,
{
    reveal_strlit("0123456789");
    let c = "0123456789"@[d as int];
    assert(s.push(c).drop_last() =~= s);
    assert(c as u32 == '0' as u32 + d);
}

/// A text is cut at the first of a character: what comes before it has none.
pub proof fn cut_is_at_the_first(x: Seq<char>, y: Seq<char>, c: char)
    requires
        forall|i: int| 0 <= i < x.len() ==> x[i] != c,
    ensures
        cut_at(x + seq![c] + y, c) == Some((x, y)),
        cut_at(x, c) is None,
{
    let s = x + seq![c] + y;
    find_char_in_bounds(s, c, 0);
    find_char_in_bounds(x, c, 0);
    let p = find_char(s, c, 0);
    assert(s[x.len() as int] == c);
    if p < x.len() {
        assert(s[p] == x[p]);
    }
    assert(p == x.len());
    assert(s.subrange(0, p) =~= x);
    assert(s.subrange(p + 1, s.len() as int) =~= y);
}

/// The parts of a text are those of the part before a separator, and then those of
/// what is behind it; a text without a separator is its own only part.
pub proof fn split_goes_on(x: Seq<char>, y: Seq<char>, sep: char)
    requires
        forall|i: int| 0 <= i < x.len() ==> x[i] != sep,
    ensures
        split(x, sep) == seq![x],
        split(x + seq![sep] + y, sep) == seq![x] + split(y, sep),
{
    let s = x + seq![sep] + y;
    find_char_in_bounds(s, sep, 0);
    find_char_in_bounds(x, sep, 0);
    let p = find_char(s, sep, 0);
    assert(s[x.len() as int] == sep);
    if p < x.len() {
        assert(s[p] == x[p]);
    }
    assert(s.subrange(0, p) =~= x);
    assert(x.subrange(0, x.len() as int) =~= x);
    split_shifts(x + seq![sep], y, sep, 0);
}

proof fn split_shifts(a: Seq<char>, y: Seq<char>, sep: char, i: int)
    requires
        0 <= i <= y.len(),
    ensures
        split_from(a + y, sep, a.len() + i) == split_from(y, sep, i),
    decreases y.len() - i,
{
    let s = a + y;
    find_shifts(a, y, sep, i);
    find_char_in_bounds(y, sep, i);
    let p = find_char(y, sep, i);
    if p < y.len() {
        split_shifts(a, y, sep, p + 1);
        assert(s.subrange(a.len() + i, a.len() + p) =~= y.subrange(i, p));
    } else {
        assert(s.subrange(a.len() + i, s.len() as int) =~= y.subrange(i, y.len() as int));
    }
}

proof fn find_shifts(a: Seq<char>, y: Seq<char>, c: char, i: int)
    requires
        0 <= i <= y.len(),
    ensures
        find_char(a + y, c, a.len() + i) == a.len() + find_char(y, c, i),
    decreases y.len() - i,
{
    if i < y.len() && y[i] != c {
        find_shifts(a, y, c, i + 1);
    }
}

/// The lines of a text are the one before a line feed, without a carriage return at its
/// end, and then those of what is behind it; what has no line feed is one line, and
/// nothing has none.
pub proof fn lines_go_on(x: Seq<char>, y: Seq<char>)
    requires
        forall|i: int| 0 <= i < x.len() ==> x[i] != '\n',
    ensures
        lines(Seq::empty()) == Seq::<Seq<char>>::empty(),
        x.len() > 0 ==> lines(x) == seq![x],
        x.len() == 0 || x.last() != '\r' ==> lines(x + seq!['\n'] + y) == seq![x] + lines(y),
        lines(x + seq!['\r', '\n'] + y) == seq![x] + lines(y),
{
    line_goes_on(x, y);
    let r = x.push('\r');
    line_goes_on(r, y);
    assert(r + seq!['\n'] + y =~= x + seq!['\r', '\n'] + y);
    assert(r.drop_last() =~= x);
}

proof fn line_goes_on(x: Seq<char>, y: Seq<char>)
    requires
        forall|i: int| 0 <= i < x.len() ==> x[i] != '\n',
    ensures
        x.len() > 0 ==> lines(x) == seq![x],
        lines(x + seq!['\n'] + y) == seq![chomp(x)] + lines(y),
{
    let s = x + seq!['\n'] + y;
    find_char_in_bounds(s, '\n', 0);
    find_char_in_bounds(x, '\n', 0);
    let p = find_char(s, '\n', 0);
    assert(s[x.len() as int] == '\n');
    if p < x.len() {
        assert(s[p] == x[p]);
    }
    assert(s.subrange(0, p) =~= x);
    assert(x.subrange(0, x.len() as int) =~= x);
    lines_shift(x + seq!['\n'], y, 0);
}

proof fn lines_shift(a: Seq<char>, y: Seq<char>, i: int)
    requires
        0 <= i <= y.len(),
    ensures
        lines_from(a + y, a.len() + i) == lines_from(y, i),
    decreases y.len() - i,
{
    let s = a + y;
    if i < y.len() {
        find_shifts(a, y, '\n', i);
        find_char_in_bounds(y, '\n', i);
        let p = find_char(y, '\n', i);
        if p < y.len() {
            lines_shift(a, y, p + 1);
            assert(s.subrange(a.len() + i, a.len() + p) =~= y.subrange(i, p));
        } else {
            assert(s.subrange(a.len() + i, s.len() as int) =~= y.subrange(i, y.len() as int));
        }
    }
}

/// The words of a text are what stands between white space: a word and then the words
/// behind the space that follows it; space before a word is passed over.
pub proof fn words_go_on(w: Seq<char>, c: char, r: Seq<char>)
    requires
        w.len() > 0,
        forall|i: int| 0 <= i < w.len() ==> !is_space(w[i]),
        is_space(c),
    ensures
        words(Seq::empty()) == Seq::<Seq<char>>::empty(),
        words(w) == seq![w],
        words(w + seq![c] + r) == seq![w] + words(r),
        words(seq![c] + r) == words(r),
{
    reveal_with_fuel(words_from, 2);
    let s = w + seq![c] + r;
    assert(s.subrange(0, w.len() as int) =~= w);
    assert(w.subrange(0, w.len() as int) =~= w);
    skip_in_bounds(w, 0);
    word_is_skipped(w, w, 0);
    word_is_skipped(s, w, 0);
    space_before_words(s, w.len() as int);
    words_shift(w + seq![c], r, 0);
    let t = seq![c] + r;
    space_before_words(t, 0);
    words_shift(seq![c], r, 0);
}

proof fn word_is_skipped(s: Seq<char>, w: Seq<char>, i: int)
    requires
        0 <= i <= w.len() <= s.len(),
        s.subrange(0, w.len() as int) == w,
        forall|j: int| 0 <= j < w.len() ==> !is_space(w[j]),
        w.len() < s.len() ==> is_space(s[w.len() as int]),
    ensures
        skip_word(s, i) == w.len(),
    decreases w.len() - i,
{
    if i < w.len() {
        assert(s.subrange(0, w.len() as int)[i] == s[i]);
        word_is_skipped(s, w, i + 1);
    }
}

proof fn space_before_words(s: Seq<char>, i: int)
    requires
        0 <= i < s.len(),
        is_space(s[i]),
    ensures
        words_from(s, i) == words_from(s, i + 1),
{
    skip_in_bounds(s, i + 1);
}

proof fn words_shift(a: Seq<char>, y: Seq<char>, i: int)
    requires
        0 <= i <= y.len(),
    ensures
        words_from(a + y, a.len() + i) == words_from(y, i),
    decreases y.len() - i,
{
    let s = a + y;
    skips_shift(a, y, i);
    skip_in_bounds(y, i);
    let p = skip_spaces(y, i);
    skips_shift(a, y, p);
    skip_in_bounds(y, p);
    let q = skip_word(y, p);
    if p < q {
        words_shift(a, y, q);
        assert(s.subrange(a.len() + p, a.len() + q) =~= y.subrange(p, q));
    }
}

proof fn skips_shift(a: Seq<char>, y: Seq<char>, i: int)
    requires
        0 <= i <= y.len(),
    ensures
        skip_spaces(a + y, a.len() + i) == a.len() + skip_spaces(y, i),
        skip_word(a + y, a.len() + i) == a.len() + skip_word(y, i),
    decreases y.len() - i,
{
    if i < y.len() {
        skips_shift(a, y, i + 1);
    }
}

/// No character that can be printed of the basic ones is white space; the blank, the
/// tabulators and the ends of lines and pages are.
pub proof fn printed_is_no_space(c: char)
    ensures
        '!' <= c <= '~' ==> !is_space(c),
        c == ' ' || c == '\t' || c == '\n' || c == '\r' || c == '\u{b}' || c == '\u{c}'
            ==> is_space(c),
{
}

/// A text is looked up at its first place in a list, and behind all where it is in none.
pub proof fn first_place_is_found(list: Seq<Seq<char>>, t: Seq<char>)
    ensures
        ({
            let p = find_text(list, t, 0);
            &&& 0 <= p <= list.len()
            &&& p < list.len() ==> list[p] == t
            &&& forall|j: int| 0 <= j < p ==> list[j] != t
            &&& p < list.len() <==> list.contains(t)
        }),
{
    place_from(list, t, 0);
}

proof fn place_from(list: Seq<Seq<char>>, t: Seq<char>, i: int)
    requires
        0 <= i <= list.len(),
        forall|j: int| 0 <= j < i ==> list[j] != t,
    ensures
        ({
            let p = find_text(list, t, i);
            &&& i <= p <= list.len()
            &&& p < list.len() ==> list[p] == t
            &&& forall|j: int| 0 <= j < p ==> list[j] != t
        }),
    decreases list.len() - i,
{
    if i < list.len() && list[i] != t {
        place_from(list, t, i + 1);
    }
}

/// A number is written in decimal digits alone.
pub proof fn decimal_is_digits(n: nat)
    ensures
        forall|i: int| 0 <= i < decimal(n).len() ==> '0' <= #[trigger] decimal(n)[i] <= '9',
{
    decimal_round_trip(n);
    only_digits_have_value(decimal(n));
}

/// The texts of a list are those of its strings, each at its place.
pub proof fn texts_keep_their_places(v: Seq<String>)
    ensures
        texts(v).len() == v.len(),
        forall|i: int| 0 <= i < v.len() ==> #[trigger] texts(v)[i] == v[i]@,
        forall|s: Seq<char>| #[trigger] byte_len(s) == vstd::utf8::encode_utf8(s).len(),
{
}

} // verus!
