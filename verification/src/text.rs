//! Character and string utilities shared by the lexer, the diagnostics and the
//! runtime: character classes, line splitting and decimal rendering.
use vstd::prelude::*;

verus! {

/// Appends one character to a `String`.
///
/// Calls `String::push`; the contract claims that the character is appended at
/// the end and nothing else changes.
#[verifier::external_body]
pub(crate) fn push_char(s: &mut String, c: char)
    ensures
        final(s)@ == old(s)@.push(c),
{
    s.push(c);
}

/// Appends a string slice to a `String`.
pub fn push_str(s: &mut String, t: &str)
    ensures
        final(s)@ == old(s)@ + t@,
{
    s.append(t);
}

/// The characters of a string slice, in order.
pub fn to_chars(s: &str) -> (v: Vec<char>)
    ensures
        v@ == s@,
{
    let mut v: Vec<char> = Vec::new();
    for c in it: s.chars()
        invariant
            v@ == it.seq().take(it.index()),
            it.seq() == s@,
    {
        v.push(c);
    }
    v
}

/// The characters `chars[from..to]` as a new `String`.
pub fn string_from_range(chars: &Vec<char>, from: usize, to: usize) -> (s: String)
    requires
        from <= to <= chars@.len(),
    ensures
        s@ == chars@.subrange(from as int, to as int),
{
    let mut s = String::new();
    let mut i = from;
    while i < to
        invariant
            from <= i <= to <= chars@.len(),
            s@ == chars@.subrange(from as int, i as int),
        decreases to - i,
    {
        push_char(&mut s, chars[i]);
        assert(chars@.subrange(from as int, i + 1) == chars@.subrange(from as int, i as int).push(chars@[i as int]));
        i = i + 1;
    }
    s
}

/// Whether a `&str` holds the same characters as another.
pub fn str_eq(a: &str, b: &str) -> (r: bool)
    ensures
        r == (a@ == b@),
{
    let av = to_chars(a);
    let bv = to_chars(b);
    chars_eq(&av, &bv)
}

/// Whether two character vectors are equal.
pub fn chars_eq(a: &Vec<char>, b: &Vec<char>) -> (r: bool)
    ensures
        r == (a@ == b@),
{
    if a.len() != b.len() {
        return false;
    }
    let mut i: usize = 0;
    while i < a.len()
        invariant
            a@.len() == b@.len(),
            i <= a@.len(),
            forall|j: int| 0 <= j < i ==> a@[j] == b@[j],
        decreases a@.len() - i,
    {
        if a[i] != b[i] {
            return false;
        }
        i = i + 1;
    }
    assert(a@ =~= b@);
    true
}

/// Unicode `Alphabetic` property, as `char::is_alphabetic` reports it.
pub uninterp spec fn spec_is_alphabetic(c: char) -> bool;

/// Unicode numeric classes (`Nd`, `Nl`, `No`), as `char::is_numeric` reports them.
pub uninterp spec fn spec_is_numeric(c: char) -> bool;

/// Unicode `White_Space` property, as `char::is_whitespace` reports it: the
/// ASCII controls tab to carriage return, the space, and 19 code points
/// beyond ASCII. (Opaque: proofs that need the list reveal it.)
#[verifier::opaque]
pub open spec fn spec_is_whitespace(c: char) -> bool {
    ||| '\u{9}' <= c <= '\u{d}'
    ||| c == ' '
    ||| c == '\u{85}'
    ||| c == '\u{a0}'
    ||| c == '\u{1680}'
    ||| '\u{2000}' <= c <= '\u{200a}'
    ||| c == '\u{2028}'
    ||| c == '\u{2029}'
    ||| c == '\u{202f}'
    ||| c == '\u{205f}'
    ||| c == '\u{3000}'
}

/// Calls `char::is_alphabetic`. The contract names the result and states it
/// for ASCII: exactly the letters `a`-`z` and `A`-`Z`.
#[verifier::external_body]
pub(crate) fn is_alphabetic(c: char) -> (r: bool)
    ensures
        r == spec_is_alphabetic(c),
        c <= '\u{7f}' ==> (r <==> ('a' <= c <= 'z' || 'A' <= c <= 'Z')),
{
    c.is_alphabetic()
}

/// Calls `char::is_numeric`. The contract names the result and states it for
/// ASCII: exactly the digits `0`-`9`.
#[verifier::external_body]
pub(crate) fn is_numeric(c: char) -> (r: bool)
    ensures
        r == spec_is_numeric(c),
        c <= '\u{7f}' ==> (r <==> '0' <= c <= '9'),
{
    c.is_numeric()
}

/// Whether `c` has the Unicode `White_Space` property, as `char::is_whitespace`
/// reports it.
pub(crate) fn is_whitespace(c: char) -> (r: bool)
    ensures
        r == spec_is_whitespace(c),
        r ==> c != '\0',
{
    proof {
        reveal(spec_is_whitespace);
    }
    ('\u{9}' <= c && c <= '\u{d}') || c == ' ' || c == '\u{85}' || c == '\u{a0}' || c == '\u{1680}'
        || ('\u{2000}' <= c && c <= '\u{200a}') || c == '\u{2028}' || c == '\u{2029}' || c == '\u{202f}'
        || c == '\u{205f}' || c == '\u{3000}'
}

/// Calls `char::is_alphanumeric`, which std documents as "alphabetic or
/// numeric".
#[verifier::external_body]
pub(crate) fn is_alphanumeric(c: char) -> (r: bool)
    ensures
        r == (spec_is_alphabetic(c) || spec_is_numeric(c)),
        c <= '\u{7f}' ==> (r <==> ('a' <= c <= 'z' || 'A' <= c <= 'Z' || '0' <= c <= '9')),
{
    c.is_alphanumeric()
}

/// `n` space characters.
pub open spec fn spaces(n: nat) -> Seq<char> {
    Seq::new(n, |i: int| ' ')
}

/// Appends `n` spaces.
pub fn push_spaces(s: &mut String, n: usize)
    ensures
        final(s)@ == old(s)@ + spaces(n as nat),
{
    let mut i: usize = 0;
    while i < n
        invariant
            i <= n,
            s@ == old(s)@ + spaces(i as nat),
        decreases n - i,
    {
        push_char(s, ' ');
        assert(spaces((i + 1) as nat) == spaces(i as nat).push(' '));
        i = i + 1;
    }
}

/// The ASCII digit for `d < 10`.
pub open spec fn digit_char(d: nat) -> char {
    if d == 0 { '0' } else if d == 1 { '1' } else if d == 2 { '2' } else if d == 3 { '3' }
    else if d == 4 { '4' } else if d == 5 { '5' } else if d == 6 { '6' } else if d == 7 { '7' }
    else if d == 8 { '8' } else { '9' }
}

/// Decimal rendering of a natural number, most significant digit first, as
/// `format!("{}", n)` writes an unsigned integer.
pub open spec fn decimal(n: nat) -> Seq<char>
    decreases n,
{
    if n < 10 {
        seq![digit_char(n)]
    } else {
        decimal(n / 10).push(digit_char(n % 10))
    }
}

fn digit(d: usize) -> (c: char)
    requires
        d < 10,
    ensures
        c == digit_char(d as nat),
{
    if d == 0 { '0' } else if d == 1 { '1' } else if d == 2 { '2' } else if d == 3 { '3' }
    else if d == 4 { '4' } else if d == 5 { '5' } else if d == 6 { '6' } else if d == 7 { '7' }
    else if d == 8 { '8' } else { '9' }
}

/// Appends the decimal rendering of `n`.
pub fn push_decimal(s: &mut String, n: usize)
    ensures
        final(s)@ == old(s)@ + decimal(n as nat),
    decreases n,
{
    if n >= 10 {
        push_decimal(s, n / 10);
    }
    push_char(s, digit(n % 10));
    assert(old(s)@ + decimal(n as nat) == old(s)@ + decimal((n / 10) as nat) + seq![digit_char((n % 10) as nat)] || n < 10);
}

/// The decimal rendering of `n` as a new `String`.
pub fn usize_to_string(n: usize) -> (s: String)
    ensures
        s@ == decimal(n as nat),
{
    let mut s = String::new();
    push_decimal(&mut s, n);
    assert(s@ == decimal(n as nat));
    s
}

/// A line without the `'\r'` that closes it, if one does.
pub open spec fn strip_cr(line: Seq<char>) -> Seq<char> {
    if line.len() > 0 && line.last() == '\r' {
        line.drop_last()
    } else {
        line
    }
}

/// Index of the first `'\n'` at or after `i`, or `s.len()` if none.
pub open spec fn line_end(s: Seq<char>, i: int) -> int
    decreases s.len() - i,
{
    if i < 0 || i >= s.len() || s[i] == '\n' {
        i
    } else {
        line_end(s, i + 1)
    }
}

/// The lines of a text as `str::lines` yields them: split at each `'\n'`,
/// a `'\r'` directly before a `'\n'` dropped, and no empty line after a final
/// `'\n'`.
pub open spec fn text_lines(s: Seq<char>) -> Seq<Seq<char>>
    decreases s.len(),
{
    if s.len() == 0 {
        seq![]
    } else {
        let k = line_end(s, 0);
        proof {
            lemma_line_end_range(s, 0);
        }
        if k < s.len() {
            seq![strip_cr(s.subrange(0, k))] + text_lines(s.subrange(k + 1, s.len() as int))
        } else {
            seq![s]
        }
    }
}

/// The line with index `n` (counting from 0), if the text has one.
pub open spec fn nth_line_spec(s: Seq<char>, n: int) -> Option<Seq<char>> {
    if 0 <= n < text_lines(s).len() {
        Some(text_lines(s)[n])
    } else {
        None
    }
}

pub proof fn lemma_line_end_range(s: Seq<char>, i: int)
    requires
        0 <= i <= s.len(),
    ensures
        i <= line_end(s, i) <= s.len(),
        line_end(s, i) < s.len() ==> s[line_end(s, i)] == '\n',
    decreases s.len() - i,
{
    if i < s.len() && s[i] != '\n' {
        lemma_line_end_range(s, i + 1);
    }
}

proof fn lemma_line_end(s: Seq<char>, i: int, k: int)
    requires
        0 <= i <= k <= s.len(),
        forall|j: int| i <= j < k ==> s[j] != '\n',
        k == s.len() || s[k] == '\n',
    ensures
        line_end(s, i) == k,
    decreases k - i,
{
    if i < k {
        lemma_line_end(s, i + 1, k);
    }
}

/// The line with index `n` of the text `chars` (as `str::lines().nth(n)`).
pub fn nth_line(chars: &Vec<char>, n: usize) -> (r: Option<String>)
    ensures
        match r {
            Some(l) => nth_line_spec(chars@, n as int) == Some(l@),
            None => nth_line_spec(chars@, n as int) is None,
        },
{
    let len = chars.len();
    let mut start: usize = 0;
    let mut idx: usize = 0;
    assert(chars@.subrange(0, len as int) =~= chars@);
    while start < len
        invariant
            len == chars@.len(),
            start <= len,
            idx <= n,
            text_lines(chars@.subrange(start as int, len as int)) =~= text_lines(chars@).skip(idx as int),
            idx <= text_lines(chars@).len(),
        decreases len - start,
    {
        let ghost rest = chars@.subrange(start as int, len as int);
        let mut e = start;
        while e < len && chars[e] != '\n'
            invariant
                start <= e <= len,
                len == chars@.len(),
                forall|j: int| start <= j < e ==> chars@[j] != '\n',
            decreases len - e,
        {
            e = e + 1;
        }
        proof {
            lemma_line_end(rest, 0, (e - start) as int);
            assert(rest.len() > 0);
        }
        if idx == n {
            if e < len {
                let mut stop = e;
                if e > start && chars[e - 1] == '\r' {
                    stop = e - 1;
                }
                let line = string_from_range(chars, start, stop);
                proof {
                    assert(rest.subrange(0, (e - start) as int) =~= chars@.subrange(start as int, e as int));
                    assert(strip_cr(chars@.subrange(start as int, e as int)) =~= chars@.subrange(start as int, stop as int));
                    assert(text_lines(chars@).skip(idx as int)[0] == text_lines(chars@)[idx as int]);
                }
                return Some(line);
            } else {
                let line = string_from_range(chars, start, len);
                proof {
                    assert(text_lines(chars@).skip(idx as int)[0] == text_lines(chars@)[idx as int]);
                }
                return Some(line);
            }
        }
        if e == len {
            proof {
                assert(text_lines(chars@).skip(idx as int).len() == 1);
            }
            return None;
        }
        proof {
            assert(rest.subrange((e - start) + 1, rest.len() as int) =~= chars@.subrange(e + 1, len as int));
            assert(text_lines(chars@).skip(idx as int).skip(1) =~= text_lines(chars@).skip(idx + 1));
        }
        start = e + 1;
        idx = idx + 1;
    }
    proof {
        assert(chars@.subrange(start as int, len as int).len() == 0);
    }
    None
}

} // verus!
