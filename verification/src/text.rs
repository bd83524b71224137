//! Characters and strings: decimal and hexadecimal formatting, conversions.

use vstd::prelude::*;
use crate::common::IntErrorKind;

verus! {

/// Appends one character to a string (`String::push`).
#[verifier::external_body]
pub(crate) fn push_char(s: &mut String, c: char)
    ensures
        final(s)@ == old(s)@.push(c),
{
    s.push(c);
}

/// The characters of `s`, in order.
pub fn str_chars(s: &str) -> (v: Vec<char>)
    ensures
        v@ == s@,
{
    let mut v: Vec<char> = Vec::new();
    for c in it: s.chars()
        invariant
            v@ == it.seq().take(it.index() as int),
            it.seq() == s@,
    {
        v.push(c);
    }
    v
}

/// A string holding the characters `v`.
pub fn string_from_chars(v: &[char]) -> (s: String)
    ensures
        s@ == v@,
{
    let mut s = String::new();
    let mut i: usize = 0;
    while i < v.len()
        invariant
            i <= v.len(),
            s@ == v@.take(i as int),
        decreases v.len() - i,
    {
        push_char(&mut s, v[i]);
        i = i + 1;
        assert(s@ =~= v@.take(i as int));
    }
    assert(v@.take(v.len() as int) =~= v@);
    s
}

} // verus!

verus! {

/// The decimal digit character for `d` (0..=9).
pub open spec fn digit_char(d: int) -> char {
    (48 + d) as char
}

/// The upper-case hexadecimal digit character for `d` (0..=15).
pub open spec fn hex_char(d: int) -> char {
    if d < 10 { (48 + d) as char } else { (55 + d) as char }
}

/// The decimal representation of `n`, without leading zeros (`"0"` for zero).
pub open spec fn dec(n: nat) -> Seq<char>
    decreases n,
{
    if n < 10 {
        seq![digit_char(n as int)]
    } else {
        dec(n / 10).push(digit_char((n % 10) as int))
    }
}

/// The decimal representation of a signed integer, with a leading `-` when negative.
pub open spec fn dec_int(i: int) -> Seq<char> {
    if i < 0 { seq!['-'] + dec((-i) as nat) } else { dec(i as nat) }
}

/// The `w` last decimal digits of `f`, zero-padded on the left.
pub open spec fn fixed_digits(f: nat, w: nat) -> Seq<char>
    decreases w,
{
    if w == 0 {
        seq![]
    } else {
        fixed_digits(f / 10, (w - 1) as nat).push(digit_char((f % 10) as int))
    }
}

/// `fixed_digits(f, w)` without its trailing zeros.
pub open spec fn trimmed_digits(f: nat, w: nat) -> Seq<char>
    decreases w,
{
    if w > 0 && f % 10 == 0 {
        trimmed_digits(f / 10, (w - 1) as nat)
    } else {
        fixed_digits(f, w)
    }
}

/// How a coordinate held in millionths of a degree prints as a decimal number of degrees:
/// a `-` when negative, the whole degrees, then a `.` and the fractional digits without
/// trailing zeros when there are any.
pub open spec fn micro_degrees_text(v: int) -> Seq<char> {
    let a: nat = if v < 0 { (-v) as nat } else { v as nat };
    let sign: Seq<char> = if v < 0 { seq!['-'] } else { seq![] };
    let whole = dec(a / 1000000);
    let frac: nat = a % 1000000;
    if frac == 0 {
        sign + whole
    } else {
        sign + whole + seq!['.'] + trimmed_digits(frac, 6)
    }
}

/// Two upper-case hexadecimal digits for a byte.
pub open spec fn hex2(b: u8) -> Seq<char> {
    seq![hex_char((b / 16) as int), hex_char((b % 16) as int)]
}

/// The character of a decimal digit.
pub fn digit(d: u64) -> (c: char)
    requires
        d < 10,
    ensures
        c == digit_char(d as int),
{
    let b: u8 = 48 + d as u8;
    b as char
}

/// The character of an upper-case hexadecimal digit.
pub fn hex_digit(d: u8) -> (c: char)
    requires
        d < 16,
    ensures
        c == hex_char(d as int),
{
    if d < 10 {
        (48 + d) as char
    } else {
        (55 + d) as char
    }
}

/// Appends the decimal representation of `n`.
pub fn push_dec(s: &mut String, n: u64)
    ensures
        final(s)@ == old(s)@ + dec(n as nat),
    decreases n,
{
    if n >= 10 {
        push_dec(s, n / 10);
    }
    let c = digit(n % 10);
    push_char(s, c);
    if n >= 10 {
        assert(final(s)@ =~= old(s)@ + dec(n as nat)) by {
            assert(dec(n as nat) == dec((n / 10) as nat).push(digit_char((n % 10) as int)));
        }
    } else {
        assert(final(s)@ =~= old(s)@ + dec(n as nat));
    }
}

/// Appends the decimal representation of a signed integer.
pub fn push_dec_int(s: &mut String, i: i64)
    ensures
        final(s)@ == old(s)@ + dec_int(i as int),
{
    if i < 0 {
        push_char(s, '-');
        let a: u64 = if i == i64::MIN { 9223372036854775808u64 } else { (-i) as u64 };
        push_dec(s, a);
        assert(final(s)@ =~= old(s)@ + dec_int(i as int));
    } else {
        push_dec(s, i as u64);
    }
}

/// Appends the `w` last decimal digits of `f`, zero-padded.
pub(crate) fn push_fixed(s: &mut String, f: u64, w: u64)
    ensures
        final(s)@ == old(s)@ + fixed_digits(f as nat, w as nat),
    decreases w,
{
    if w > 0 {
        push_fixed(s, f / 10, w - 1);
        let c = digit(f % 10);
        push_char(s, c);
        assert(final(s)@ =~= old(s)@ + fixed_digits(f as nat, w as nat));
    } else {
        assert(final(s)@ =~= old(s)@ + fixed_digits(f as nat, w as nat));
    }
}

/// Appends `f`'s `w` last digits without their trailing zeros.
fn push_trimmed(s: &mut String, f: u64, w: u64)
    ensures
        final(s)@ == old(s)@ + trimmed_digits(f as nat, w as nat),
    decreases w,
{
    if w > 0 && f % 10 == 0 {
        push_trimmed(s, f / 10, w - 1);
    } else {
        push_fixed(s, f, w);
    }
}

/// Appends a coordinate given in millionths of a degree, as a decimal number of degrees.
pub fn push_micro_degrees(s: &mut String, v: i64)
    ensures
        final(s)@ == old(s)@ + micro_degrees_text(v as int),
{
    let a: u64 = if v == i64::MIN { 9223372036854775808u64 } else if v < 0 { (-v) as u64 } else { v as u64 };
    let ghost s0 = s@;
    if v < 0 {
        push_char(s, '-');
    }
    let ghost s1 = s@;
    push_dec(s, a / 1000000);
    let frac = a % 1000000;
    if frac != 0 {
        push_char(s, '.');
        push_trimmed(s, frac, 6);
    }
    assert(s@ =~= s0 + micro_degrees_text(v as int));
}

/// Appends the two upper-case hexadecimal digits of a byte.
pub fn push_hex2(s: &mut String, b: u8)
    ensures
        final(s)@ == old(s)@ + hex2(b),
{
    let c1 = hex_digit(b / 16);
    push_char(s, c1);
    let c2 = hex_digit(b % 16);
    push_char(s, c2);
    assert(final(s)@ =~= old(s)@ + hex2(b));
}

} // verus!

verus! {

/// The characters with the Unicode `White_Space` property (`char::is_whitespace`).
pub open spec fn is_ws(c: char) -> bool {
    let u = c as int;
    (9 <= u <= 13) || u == 32 || u == 0x85 || u == 0xA0 || u == 0x1680 || (0x2000 <= u <= 0x200A)
        || u == 0x2028 || u == 0x2029 || u == 0x202F || u == 0x205F || u == 0x3000
}

/// Whether `c` is white space.
pub fn is_whitespace(c: char) -> (b: bool)
    ensures
        b == is_ws(c),
{
    let u = c as u32;
    (9 <= u && u <= 13) || u == 32 || u == 0x85 || u == 0xA0 || u == 0x1680 || (0x2000 <= u && u
        <= 0x200A) || u == 0x2028 || u == 0x2029 || u == 0x202F || u == 0x205F || u == 0x3000
}

/// The number of leading characters of `s` that are not white space.
pub open spec fn word_len(s: Seq<char>) -> nat
    decreases s.len(),
{
    if s.len() == 0 || is_ws(s[0]) { 0 } else { 1 + word_len(s.drop_first()) }
}

/// A word is no longer than the text.
pub proof fn lemma_word_len_le(s: Seq<char>)
    ensures
        word_len(s) <= s.len(),
    decreases s.len(),
{
    if s.len() > 0 && !is_ws(s[0]) {
        lemma_word_len_le(s.drop_first());
    }
}

/// A line is no longer than the text.
pub proof fn lemma_line_len_le(s: Seq<char>)
    ensures
        line_len(s) <= s.len(),
    decreases s.len(),
{
    if s.len() > 0 && s[0] != '\n' {
        lemma_line_len_le(s.drop_first());
    }
}

/// The words of `s`: its maximal runs of characters that are not white space
/// (`str::split_whitespace`).
pub open spec fn words(s: Seq<char>) -> Seq<Seq<char>>
    decreases s.len(),
{
    if s.len() == 0 {
        seq![]
    } else if is_ws(s[0]) {
        words(s.drop_first())
    } else {
        let n = word_len(s);
        proof {
            lemma_word_len_le(s);
        }
        seq![s.take(n as int)] + words(s.skip(n as int))
    }
}

/// The number of leading characters of `s` before its first line feed.
pub open spec fn line_len(s: Seq<char>) -> nat
    decreases s.len(),
{
    if s.len() == 0 || s[0] == '\n' { 0 } else { 1 + line_len(s.drop_first()) }
}

/// A line without the carriage return that ends it, if any.
pub open spec fn strip_cr(l: Seq<char>) -> Seq<char> {
    if l.len() > 0 && l.last() == '\r' { l.drop_last() } else { l }
}

/// The lines of `s` (`str::lines`): split at each line feed, a carriage return just before
/// it removed; no line after a final line feed.
pub open spec fn lines(s: Seq<char>) -> Seq<Seq<char>>
    decreases s.len(),
{
    if s.len() == 0 {
        seq![]
    } else if line_len(s) == s.len() {
        seq![s]
    } else {
        let n = line_len(s);
        proof {
            lemma_line_len_le(s);
        }
        seq![strip_cr(s.take(n as int))] + lines(s.skip(n + 1int))
    }
}

/// Whether `needle` occurs in `hay`.
pub open spec fn contains(hay: Seq<char>, needle: Seq<char>) -> bool {
    exists|i: int| 0 <= i <= hay.len() - needle.len() && #[trigger] hay.subrange(i, i + needle.len()) == needle
}

proof fn lemma_word_len_step(s: Seq<char>, i: int)
    requires
        0 <= i < s.len(),
        !is_ws(s[i]),
    ensures
        word_len(s.skip(i)) == 1 + word_len(s.skip(i + 1)),
{
    assert(s.skip(i).drop_first() =~= s.skip(i + 1));
}

proof fn lemma_word_len_stop(s: Seq<char>, i: int)
    requires
        0 <= i <= s.len(),
        i == s.len() || is_ws(s[i]),
    ensures
        word_len(s.skip(i)) == 0,
{
}

/// The words of `line`.
pub fn split_ws(line: &[char]) -> (v: Vec<Vec<char>>)
    ensures
        v@.map_values(|w: Vec<char>| w@) == words(line@),
{
    let n = line.len();
    let mut out: Vec<Vec<char>> = Vec::new();
    let mut i: usize = 0;
    assert(line@.skip(0) =~= line@);
    assert(out@.map_values(|w: Vec<char>| w@) + words(line@) =~= words(line@));
    while i < n
        invariant
            n == line@.len(),
            i <= n,
            words(line@) == out@.map_values(|w: Vec<char>| w@) + words(line@.skip(i as int)),
        decreases n - i,
    {
        if is_whitespace(line[i]) {
            assert(line@.skip(i as int).drop_first() =~= line@.skip(i + 1));
            i = i + 1;
        } else {
            let mut j = i;
            let mut w: Vec<char> = Vec::new();
            while j < n && !is_whitespace(line[j])
                invariant
                    n == line@.len(),
                    i <= j <= n,
                    w@ == line@.subrange(i as int, j as int),
                    word_len(line@.skip(i as int)) == (j - i) + word_len(line@.skip(j as int)),
                decreases n - j,
            {
                proof {
                    lemma_word_len_step(line@, j as int);
                }
                w.push(line[j]);
                j = j + 1;
                assert(w@ =~= line@.subrange(i as int, j as int));
            }
            proof {
                lemma_word_len_stop(line@, j as int);
            }
            let ghost before = out@.map_values(|x: Vec<char>| x@);
            let ghost rest = line@.skip(i as int);
            assert(rest.take((j - i) as int) =~= w@);
            assert(rest.skip((j - i) as int) =~= line@.skip(j as int));
            out.push(w);
            assert(out@.map_values(|x: Vec<char>| x@) =~= before.push(w@));
            i = j;
        }
    }
    assert(line@.skip(n as int) =~= Seq::<char>::empty());
    assert(out@.map_values(|x: Vec<char>| x@) + Seq::<Seq<char>>::empty() =~= out@.map_values(|x: Vec<char>| x@));
    out
}

proof fn lemma_line_len_step(s: Seq<char>, i: int)
    requires
        0 <= i < s.len(),
        s[i] != '\n',
    ensures
        line_len(s.skip(i)) == 1 + line_len(s.skip(i + 1)),
{
    assert(s.skip(i).drop_first() =~= s.skip(i + 1));
}

/// The lines of `text`.
pub fn split_lines(text: &[char]) -> (v: Vec<Vec<char>>)
    ensures
        v@.map_values(|w: Vec<char>| w@) == lines(text@),
{
    let n = text.len();
    let mut out: Vec<Vec<char>> = Vec::new();
    let mut i: usize = 0;
    assert(text@.skip(0) =~= text@);
    assert(out@.map_values(|w: Vec<char>| w@) + lines(text@) =~= lines(text@));
    while i < n
        invariant
            n == text@.len(),
            i <= n,
            lines(text@) == out@.map_values(|w: Vec<char>| w@) + lines(text@.skip(i as int)),
        decreases n - i,
    {
        let mut j = i;
        let mut w: Vec<char> = Vec::new();
        while j < n && text[j] != '\n'
            invariant
                n == text@.len(),
                i <= j <= n,
                w@ == text@.subrange(i as int, j as int),
                line_len(text@.skip(i as int)) == (j - i) + line_len(text@.skip(j as int)),
            decreases n - j,
        {
            proof {
                lemma_line_len_step(text@, j as int);
            }
            w.push(text[j]);
            j = j + 1;
            assert(w@ =~= text@.subrange(i as int, j as int));
        }
        let ghost before = out@.map_values(|x: Vec<char>| x@);
        let ghost rest = text@.skip(i as int);
        if j == n {
            assert(line_len(text@.skip(j as int)) == 0);
            assert(rest =~= w@);
            out.push(w);
            assert(out@.map_values(|x: Vec<char>| x@) =~= before.push(rest));
            i = n;
            assert(lines(text@.skip(i as int)) =~= Seq::<Seq<char>>::empty()) by {
                assert(text@.skip(i as int).len() == 0);
            }
        } else {
            assert(line_len(text@.skip(j as int)) == 0);
            if w.len() > 0 && w[w.len() - 1] == '\r' {
                w.pop();
            }
            assert(w@ =~= strip_cr(rest.take((j - i) as int)));
            assert(rest.skip((j - i) + 1) =~= text@.skip(j + 1));
            out.push(w);
            assert(out@.map_values(|x: Vec<char>| x@) =~= before.push(strip_cr(rest.take((j - i) as int))));
            i = j + 1;
        }
    }
    assert(text@.skip(n as int) =~= Seq::<char>::empty());
    assert(out@.map_values(|x: Vec<char>| x@) + Seq::<Seq<char>>::empty() =~= out@.map_values(|x: Vec<char>| x@));
    out
}

/// Whether `needle` occurs in `hay`.
pub fn find_in(hay: &[char], needle: &[char]) -> (b: bool)
    ensures
        b == contains(hay@, needle@),
{
    let hl = hay.len();
    let nl = needle.len();
    if nl > hl {
        return false;
    }
    if nl == 0 {
        assert(hay@.subrange(0int, 0int + needle@.len()) =~= needle@);
        return true;
    }
    let mut i: usize = 0;
    while i <= hl - nl
        invariant
            hl == hay@.len(),
            nl == needle@.len(),
            1 <= nl <= hl,
            i <= hl - nl + 1,
            forall|k: int| 0 <= k < i ==> #[trigger] hay@.subrange(k, k + needle@.len()) != needle@,
        decreases hl - nl + 1 - i,
    {
        let mut j: usize = 0;
        let mut same = true;
        while j < nl
            invariant
                hl == hay@.len(),
                nl == needle@.len(),
                i + nl <= hl,
                j <= nl,
                same == (forall|m: int| 0 <= m < j ==> hay@[i + m] == needle@[m]),
            decreases nl - j,
        {
            if hay[i + j] != needle[j] {
                same = false;
            }
            j = j + 1;
        }
        if same {
            assert(hay@.subrange(i as int, i + needle@.len()) =~= needle@);
            return true;
        }
        assert(hay@.subrange(i as int, i + needle@.len()) != needle@) by {
            let m = choose|m: int| 0 <= m < j && hay@[i + m] != needle@[m];
            assert(hay@.subrange(i as int, i + needle@.len())[m] != needle@[m]);
        }
        i = i + 1;
    }
    assert(!contains(hay@, needle@)) by {
        if contains(hay@, needle@) {
            let k = choose|k: int| 0 <= k <= hay@.len() - needle@.len() && #[trigger] hay@.subrange(k, k + needle@.len()) == needle@;
            assert(hay@.subrange(k, k + needle@.len()) != needle@);
        }
    }
    false
}

} // verus!

verus! {

/// Whether `c` is an ASCII decimal digit.
pub open spec fn is_digit(c: char) -> bool {
    '0' <= c <= '9'
}

/// Reads the decimal digits `s` after the value `acc` read so far, as `usize::from_str`
/// does: the first character that is not a digit, or the first digit that makes the value
/// exceed `usize::MAX`, stops it.
pub open spec fn digits_value(s: Seq<char>, acc: int) -> Result<int, IntErrorKind>
    decreases s.len(),
{
    if s.len() == 0 {
        Ok(acc)
    } else if !is_digit(s[0]) {
        Err(IntErrorKind::InvalidDigit)
    } else if acc * 10 + (s[0] as int - 48) > usize::MAX {
        Err(IntErrorKind::PosOverflow)
    } else {
        digits_value(s.drop_first(), acc * 10 + (s[0] as int - 48))
    }
}

/// What `str::parse::<usize>` gives for `s`: an optional `+` then decimal digits.
pub open spec fn parse_usize_spec(s: Seq<char>) -> Result<int, IntErrorKind> {
    if s.len() == 0 {
        Err(IntErrorKind::Empty)
    } else if s[0] == '+' {
        if s.len() == 1 {
            Err(IntErrorKind::InvalidDigit)
        } else {
            digits_value(s.drop_first(), 0)
        }
    } else {
        digits_value(s, 0)
    }
}

/// Reads a `usize` written in decimal, with an optional `+`.
pub fn parse_usize(s: &[char]) -> (r: Result<usize, IntErrorKind>)
    ensures
        match r {
            Ok(v) => parse_usize_spec(s@) == Ok::<int, IntErrorKind>(v as int),
            Err(k) => parse_usize_spec(s@) == Err::<int, IntErrorKind>(k),
        },
{
    let n = s.len();
    if n == 0 {
        return Err(IntErrorKind::Empty);
    }
    let mut i: usize = 0;
    if s[0] == '+' {
        if n == 1 {
            return Err(IntErrorKind::InvalidDigit);
        }
        i = 1;
    }
    let ghost digits = s@.skip(i as int);
    assert(parse_usize_spec(s@) == digits_value(digits, 0)) by {
        if s@[0] == '+' {
            assert(digits =~= s@.drop_first());
        } else {
            assert(digits =~= s@);
        }
    }
    let mut acc: usize = 0;
    while i < n
        invariant
            n == s@.len(),
            i <= n,
            parse_usize_spec(s@) == digits_value(digits, 0),
            digits_value(digits, 0) == digits_value(s@.skip(i as int), acc as int),
        decreases n - i,
    {
        let c = s[i];
        assert(s@.skip(i as int)[0] == c);
        if !('0' <= c && c <= '9') {
            return Err(IntErrorKind::InvalidDigit);
        }
        let d = (c as u32 - 48) as usize;
        if acc > (usize::MAX - d) / 10 {
            assert(acc * 10 + d > usize::MAX) by (nonlinear_arith)
                requires
                    acc > (usize::MAX - d) / 10,
                    d <= 9,
            ;
            return Err(IntErrorKind::PosOverflow);
        }
        assert(acc * 10 + d <= usize::MAX) by (nonlinear_arith)
            requires
                acc <= (usize::MAX - d) / 10,
                d <= 9,
        ;
        acc = acc * 10 + d;
        assert(s@.skip(i as int).drop_first() =~= s@.skip(i + 1));
        i = i + 1;
    }
    assert(s@.skip(i as int).len() == 0);
    Ok(acc)
}

} // verus!

verus! {

/// The characters of each string.
pub open spec fn strings_view(v: Seq<String>) -> Seq<Seq<char>> {
    v.map_values(|s: String| s@)
}

/// Whether the first `n` characters of `s` exist and are ASCII, so that byte positions
/// and character positions agree up to `n`.
pub open spec fn ascii_prefix(s: Seq<char>, n: int) -> bool {
    s.len() >= n && forall|i: int| 0 <= i < n ==> (#[trigger] s[i] as int) < 128
}

/// The numbers `start`, `start + step`, ... up to `end` included
/// (`(start..=end).step_by(step)`).
pub open spec fn hours_from(start: int, end: int, step: int) -> Seq<int>
    decreases (if start > end { 0 } else { end - start + 1 }),
{
    if step <= 0 || start > end {
        seq![]
    } else {
        seq![start] + hours_from(start + step, end, step)
    }
}

/// The characters `s[lo..hi]` as a string.
pub fn substring(s: &[char], lo: usize, hi: usize) -> (r: String)
    requires
        lo <= hi <= s@.len(),
    ensures
        r@ == s@.subrange(lo as int, hi as int),
{
    let mut r = String::new();
    let mut i = lo;
    while i < hi
        invariant
            lo <= i <= hi <= s@.len(),
            r@ == s@.subrange(lo as int, i as int),
        decreases hi - i,
    {
        push_char(&mut r, s[i]);
        i = i + 1;
        assert(r@ =~= s@.subrange(lo as int, i as int));
    }
    r
}

/// Whether the characters of `s` are those of the two-character literal `lit`.
pub fn is_two(s: &str, a: char, b: char) -> (r: bool)
    ensures
        r == (s@ =~= seq![a, b]),
{
    let c = str_chars(s);
    if c.len() != 2 {
        return false;
    }
    c[0] == a && c[1] == b
}

} // verus!

verus! {

/// `s` with each occurrence of `from` replaced by `to`, from left to right without overlap
/// (`str::replace` with a non-empty pattern).
pub open spec fn replace_all(s: Seq<char>, from: Seq<char>, to: Seq<char>) -> Seq<char>
    decreases s.len(),
{
    if from.len() == 0 || s.len() < from.len() {
        s
    } else if s.take(from.len() as int) == from {
        to + replace_all(s.skip(from.len() as int), from, to)
    } else {
        seq![s[0]] + replace_all(s.drop_first(), from, to)
    }
}

/// The number of times `c` occurs in `s`.
pub open spec fn count_char(s: Seq<char>, c: char) -> nat
    decreases s.len(),
{
    if s.len() == 0 {
        0
    } else {
        (if s[0] == c { 1nat } else { 0nat }) + count_char(s.drop_first(), c)
    }
}

/// `s` with each occurrence of `from` (not empty) replaced by `to`.
pub fn replace(s: &str, from: &str, to: &str) -> (r: String)
    requires
        from@.len() > 0,
    ensures
        r@ == replace_all(s@, from@, to@),
{
    let c = str_chars(s);
    let f = str_chars(from);
    let n = c.len();
    let m = f.len();
    let mut r = String::new();
    let mut i: usize = 0;
    assert(c@.skip(0) =~= c@);
    assert(r@ + replace_all(c@, f@, to@) =~= replace_all(c@, f@, to@));
    while i < n
        invariant
            n == c@.len(),
            m == f@.len(),
            m > 0,
            i <= n,
            f@ == from@,
            r@ + replace_all(c@.skip(i as int), f@, to@) == replace_all(c@, f@, to@),
        decreases n - i,
    {
        let ghost rest = c@.skip(i as int);
        let ghost before = r@;
        if n - i < m {
            assert(replace_all(rest, f@, to@) == rest);
            let tail = substring(c.as_slice(), i, n);
            assert(tail@ =~= rest);
            r.append(tail.as_str());
            i = n;
            assert(c@.skip(i as int) =~= Seq::<char>::empty());
            assert(replace_all(c@.skip(i as int), f@, to@) =~= Seq::<char>::empty());
            assert(r@ + Seq::<char>::empty() =~= r@);
        } else {
            let mut k: usize = 0;
            let mut same = true;
            while k < m
                invariant
                    i + m <= n,
                    n == c@.len(),
                    m == f@.len(),
                    k <= m,
                    same == (forall|j: int| 0 <= j < k ==> c@[i + j] == f@[j]),
                decreases m - k,
            {
                if c[i + k] != f[k] {
                    same = false;
                }
                k = k + 1;
            }
            if same {
                assert(rest.take(m as int) =~= f@);
                assert(rest.skip(m as int) =~= c@.skip(i + m));
                r.append(to);
                assert(r@ + replace_all(c@.skip(i + m), f@, to@) =~= before + replace_all(rest, f@, to@));
                i = i + m;
            } else {
                assert(rest.take(m as int) != f@) by {
                    let j = choose|j: int| 0 <= j < k && c@[i + j] != f@[j];
                    assert(rest.take(m as int)[j] != f@[j]);
                }
                assert(rest.drop_first() =~= c@.skip(i + 1));
                push_char(&mut r, c[i]);
                assert(r@ + replace_all(c@.skip(i + 1), f@, to@) =~= before + replace_all(rest, f@, to@));
                i = i + 1;
            }
        }
    }
    assert(c@.skip(i as int) =~= Seq::<char>::empty());
    assert(r@ + Seq::<char>::empty() =~= r@);
    r
}

/// The number of times `c` occurs in `s`.
pub fn count_in(s: &str, c: char) -> (k: usize)
    ensures
        k == count_char(s@, c),
{
    let v = str_chars(s);
    let mut k: usize = 0;
    let mut i: usize = v.len();
    assert(v@.skip(i as int) =~= Seq::<char>::empty());
    while i > 0
        invariant
            i <= v@.len(),
            k == count_char(v@.skip(i as int), c),
            k <= v@.len() - i,
        decreases i,
    {
        assert(v@.skip(i - 1).drop_first() =~= v@.skip(i as int));
        i = i - 1;
        if v[i] == c {
            k = k + 1;
        }
    }
    assert(v@.skip(0) =~= v@);
    k
}

} // verus!

verus! {

/// `n` in decimal, zero-padded to 3 digits (`{:03}`).
pub open spec fn pad3(n: nat) -> Seq<char> {
    if n < 10 { seq!['0', '0'] + dec(n) } else if n < 100 { seq!['0'] + dec(n) } else { dec(n) }
}

/// Appends `n` in decimal, zero-padded to 3 digits.
pub fn push_pad3(s: &mut String, n: u64)
    ensures
        final(s)@ == old(s)@ + pad3(n as nat),
{
    if n < 10 {
        push_char(s, '0');
        push_char(s, '0');
    } else if n < 100 {
        push_char(s, '0');
    }
    push_dec(s, n);
    assert(final(s)@ =~= old(s)@ + pad3(n as nat));
}

/// The position of the first occurrence of `needle` in `hay` at or after `from`.
pub open spec fn first_index(hay: Seq<char>, needle: Seq<char>, from: int) -> Option<int>
    decreases (if from < 0 || from > hay.len() { 0 } else { hay.len() - from + 1 }),
{
    if from < 0 || from + needle.len() > hay.len() {
        None
    } else if hay.subrange(from, from + needle.len()) == needle {
        Some(from)
    } else {
        first_index(hay, needle, from + 1)
    }
}

/// The position of the first occurrence of `needle` in `hay`.
pub fn find_index(hay: &[char], needle: &[char]) -> (r: Option<usize>)
    ensures
        match r {
            Some(i) => first_index(hay@, needle@, 0) == Some(i as int),
            None => first_index(hay@, needle@, 0) is None,
        },
{
    let hl = hay.len();
    let nl = needle.len();
    if nl > hl {
        return None;
    }
    let mut i: usize = 0;
    while i <= hl - nl
        invariant
            hl == hay@.len(),
            nl == needle@.len(),
            nl <= hl,
            i <= hl - nl + 1,
            first_index(hay@, needle@, 0) == first_index(hay@, needle@, i as int),
        decreases hl - nl + 1 - i,
    {
        let mut j: usize = 0;
        let mut same = true;
        while j < nl
            invariant
                hl == hay@.len(),
                nl == needle@.len(),
                i + nl <= hl,
                j <= nl,
                same == (forall|m: int| 0 <= m < j ==> hay@[i + m] == needle@[m]),
            decreases nl - j,
        {
            if hay[i + j] != needle[j] {
                same = false;
            }
            j = j + 1;
        }
        if same {
            assert(hay@.subrange(i as int, i + needle@.len()) =~= needle@);
            return Some(i);
        }
        assert(hay@.subrange(i as int, i + needle@.len()) != needle@) by {
            let m = choose|m: int| 0 <= m < j && hay@[i + m] != needle@[m];
            assert(hay@.subrange(i as int, i + needle@.len())[m] != needle@[m]);
        }
        if i == hl - nl {
            assert(first_index(hay@, needle@, i + 1) is None);
            return None;
        }
        i = i + 1;
    }
    None
}

} // verus!

verus! {

/// Where `first_index` finds `needle`, it lies within `hay`.
pub proof fn lemma_first_index_bounds(hay: Seq<char>, needle: Seq<char>, from: int)
    ensures
        first_index(hay, needle, from) matches Some(i) ==> from <= i && i + needle.len() <= hay.len()
            && hay.subrange(i, i + needle.len()) == needle,
    decreases (if from < 0 || from > hay.len() { 0 } else { hay.len() - from + 1 }),
{
    if !(from < 0 || from + needle.len() > hay.len()) && hay.subrange(from, from + needle.len()) != needle {
        lemma_first_index_bounds(hay, needle, from + 1);
    }
}

} // verus!

verus! {

/// The numbers of `hours_from` start at `start`, go up by `step`, stay within
/// `[start, end]`, and stop less than one step before `end`.
pub proof fn lemma_hours_from(start: int, end: int, step: int)
    requires
        step > 0,
        start <= end,
    ensures
        hours_from(start, end, step).len() > 0,
        hours_from(start, end, step)[0] == start,
        forall|k: int| 1 <= k < hours_from(start, end, step).len() ==>
            #[trigger] hours_from(start, end, step)[k] == hours_from(start, end, step)[k - 1] + step,
        forall|k: int| 0 <= k < hours_from(start, end, step).len() ==>
            start <= #[trigger] hours_from(start, end, step)[k] <= end,
        hours_from(start, end, step).last() + step > end,
    decreases end - start,
{
    let h = hours_from(start, end, step);
    let rest = hours_from(start + step, end, step);
    assert(h == seq![start] + rest);
    if start + step <= end {
        lemma_hours_from(start + step, end, step);
        assert forall|k: int| 1 <= k < h.len() implies #[trigger] h[k] == h[k - 1] + step by {
            assert(h[k] == rest[k - 1]);
            if k > 1 {
                assert(h[k - 1] == rest[k - 2]);
            }
        }
        assert forall|k: int| 0 <= k < h.len() implies start <= #[trigger] h[k] <= end by {
            if k > 0 {
                assert(h[k] == rest[k - 1]);
            }
        }
        assert(h.last() == rest.last());
    } else {
        assert(rest.len() == 0);
    }
}

} // verus!

verus! {

/// Whether `h` starts at or after `lo`, rises at each step by more than nothing and at most
/// `g`, and never passes `hi`.
pub open spec fn rising_within(h: Seq<int>, g: int, lo: int, hi: int) -> bool {
    &&& h.len() > 0
    &&& forall|k: int| 1 <= k < h.len() ==> h[k - 1] < #[trigger] h[k] <= h[k - 1] + g
    &&& forall|k: int| 0 <= k < h.len() ==> lo <= #[trigger] h[k] <= hi
}

/// Two rising runs of hours, the second starting within `g` after the first ends, make one.
pub proof fn lemma_rising_join(a: Seq<int>, b: Seq<int>, g: int, lo: int, hi: int)
    requires
        rising_within(a, g, lo, hi),
        rising_within(b, g, lo, hi),
        a.last() < b[0] <= a.last() + g,
    ensures
        rising_within(a + b, g, lo, hi),
        (a + b)[0] == a[0],
        (a + b).last() == b.last(),
{
    let h = a + b;
    assert forall|k: int| 1 <= k < h.len() implies h[k - 1] < #[trigger] h[k] <= h[k - 1] + g by {
        if k < a.len() {
            assert(h[k - 1] == a[k - 1] && h[k] == a[k]);
        } else if k == a.len() {
            assert(h[k - 1] == a[k - 1] && h[k] == b[0]);
        } else {
            assert(h[k - 1] == b[k - 1 - a.len()] && h[k] == b[k - a.len()]);
        }
    }
    assert forall|k: int| 0 <= k < h.len() implies lo <= #[trigger] h[k] <= hi by {
        if k < a.len() {
            assert(h[k] == a[k]);
        } else {
            assert(h[k] == b[k - a.len()]);
        }
    }
}

/// Counting by `step` from `start`, `n` steps on, ends exactly at `start + n * step`.
pub proof fn lemma_hours_last(start: int, n: nat, step: int)
    requires
        step > 0,
    ensures
        hours_from(start, start + n * step, step).last() == start + n * step,
    decreases n,
{
    let end = start + n * step;
    let rest = hours_from(start + step, end, step);
    assert(hours_from(start, end, step) == seq![start] + rest);
    if n == 0 {
        assert(n * step == 0) by (nonlinear_arith)
            requires
                n == 0,
        ;
        assert(rest.len() == 0);
    } else {
        let m = (n - 1) as nat;
        assert(start + step + m * step == end) by (nonlinear_arith)
            requires
                m == n - 1,
                end == start + n * step,
        ;
        lemma_hours_last(start + step, m, step);
        lemma_hours_from(start + step, end, step);
    }
}

/// `hours_from` rises by its step within its bounds.
pub proof fn lemma_hours_rising(start: int, end: int, step: int, g: int)
    requires
        0 < step <= g,
        start <= end,
    ensures
        rising_within(hours_from(start, end, step), g, start, end),
        hours_from(start, end, step)[0] == start,
        hours_from(start, end, step).last() + step > end,
{
    lemma_hours_from(start, end, step);
}

} // verus!

verus! {

/// `fixed_digits(f, w)` is `w` decimal digits.
pub proof fn lemma_fixed_digits(f: nat, w: nat)
    ensures
        fixed_digits(f, w).len() == w,
        forall|i: int| 0 <= i < w ==> is_digit(#[trigger] fixed_digits(f, w)[i]),
    decreases w,
{
    if w > 0 {
        lemma_fixed_digits(f / 10, (w - 1) as nat);
        let c = digit_char((f % 10) as int);
        assert(48 <= 48 + (f % 10) as int <= 57);
        assert(is_digit(c));
        let s = fixed_digits(f, w);
        assert forall|i: int| 0 <= i < w implies is_digit(#[trigger] s[i]) by {
            if i < w - 1 {
                assert(s[i] == fixed_digits(f / 10, (w - 1) as nat)[i]);
            } else {
                assert(s[i] == c);
            }
        }
    }
}

} // verus!

verus! {

/// The number that a string of decimal digits stands for.
pub open spec fn digits_num(s: Seq<char>) -> int
    decreases s.len(),
{
    if s.len() == 0 {
        0
    } else {
        digits_num(s.drop_last()) * 10 + (s.last() as int - 48)
    }
}

/// Whether every character of `s` is a decimal digit.
pub open spec fn all_digits(s: Seq<char>) -> bool {
    forall|i: int| 0 <= i < s.len() ==> is_digit(#[trigger] s[i])
}

/// Ten to the power `n`.
pub open spec fn pow10(n: nat) -> int
    decreases n,
{
    if n == 0 { 1 } else { 10 * pow10((n - 1) as nat) }
}

proof fn lemma_pow10_pos(n: nat)
    ensures
        pow10(n) >= 1,
    decreases n,
{
    if n > 0 {
        lemma_pow10_pos((n - 1) as nat);
    }
}

/// The digit character for `d` is a digit, whose code is 48 more than `d`.
proof fn lemma_digit_char_value(d: int)
    requires
        0 <= d < 10,
    ensures
        is_digit(digit_char(d)),
        digit_char(d) as int == 48 + d,
{
}

/// `dec(n)` is a nonempty string of digits that reads back as `n`.
proof fn lemma_dec_reads_back(n: nat)
    ensures
        dec(n).len() >= 1,
        all_digits(dec(n)),
        digits_num(dec(n)) == n,
    decreases n,
{
    let d = digit_char((n % 10) as int);
    assert(48 <= 48 + (n % 10) as int <= 57);
    assert(is_digit(d));
    assert(d as int == 48 + (n % 10) as int);
    assert(n == (n / 10) * 10 + n % 10);
    if n >= 10 {
        lemma_dec_reads_back(n / 10);
        let s = dec(n);
        assert(s == dec(n / 10).push(d));
        assert(s.last() == d);
        assert(s.drop_last() =~= dec(n / 10));
        assert(digits_num(s) == digits_num(dec(n / 10)) * 10 + (d as int - 48));
        assert forall|i: int| 0 <= i < s.len() implies is_digit(#[trigger] s[i]) by {
            if i < s.len() - 1 {
                assert(s[i] == dec(n / 10)[i]);
            }
        }
    } else {
        assert(n % 10 == n);
        assert(dec(n) == seq![d]);
        assert(dec(n).drop_last() =~= Seq::<char>::empty());
        assert(digits_num(Seq::<char>::empty()) == 0);
        assert(dec(n).last() == d);
    }
}

/// `fixed_digits(f, w)` reads back as the `w` last decimal digits of `f`.
proof fn lemma_fixed_digits_read_back(f: nat, w: nat)
    ensures
        digits_num(fixed_digits(f, w)) == f % (pow10(w) as nat),
    decreases w,
{
    lemma_pow10_pos(w);
    if w == 0 {
        assert(fixed_digits(f, w) =~= Seq::<char>::empty());
    } else {
        let q: nat = f / 10;
        let p: nat = pow10((w - 1) as nat) as nat;
        lemma_pow10_pos((w - 1) as nat);
        lemma_fixed_digits_read_back(q, (w - 1) as nat);
        let s = fixed_digits(f, w);
        assert(s.drop_last() =~= fixed_digits(q, (w - 1) as nat));
        assert(digits_num(s) == (q % p) * 10 + f % 10);
        let m = q / p;
        assert(q == m * p + q % p) by {
            vstd::arithmetic::div_mod::lemma_fundamental_div_mod(q as int, p as int);
        }
        assert(f == 10 * q + f % 10);
        assert(s == fixed_digits(q, (w - 1) as nat).push(digit_char((f % 10) as int)));
        let c = digit_char((f % 10) as int);
        lemma_digit_char_value((f % 10) as int);
        assert(s.last() == c);
        let sq = q % p;
        let r = f % 10;
        assert(f == m * (10 * p) + (sq * 10 + r)) by (nonlinear_arith)
            requires
                f == 10 * q + r,
                q == m * p + sq,
        ;
        assert(0 <= (q % p) * 10 + f % 10 < 10 * p) by (nonlinear_arith)
            requires
                0 <= q % p < p,
                0 <= f % 10 < 10,
        ;
        vstd::arithmetic::div_mod::lemma_fundamental_div_mod_converse(
            f as int,
            (10 * p) as int,
            m as int,
            ((q % p) * 10 + f % 10) as int,
        );
    }
}

/// `trimmed_digits(f, w)` of a nonzero `f` below `10^w` is a string of one to `w` digits
/// that does not end in `0` and, scaled by the digits it dropped, reads back as `f`.
proof fn lemma_trimmed_digits_read_back(f: nat, w: nat)
    requires
        0 < f < pow10(w),
    ensures
        ({
            let t = trimmed_digits(f, w);
            &&& 1 <= t.len() <= w
            &&& all_digits(t)
            &&& t.last() != '0'
            &&& digits_num(t) * pow10((w - t.len()) as nat) == f
        }),
    decreases w,
{
    if w == 0 {
        assert(false);
    } else if f % 10 == 0 {
        assert(f / 10 < pow10((w - 1) as nat));
        lemma_trimmed_digits_read_back(f / 10, (w - 1) as nat);
        let t = trimmed_digits(f, w);
        assert(t == trimmed_digits(f / 10, (w - 1) as nat));
        assert((w - t.len()) as nat == ((w - 1 - t.len()) as nat + 1) as nat);
        assert(pow10((w - t.len()) as nat) == 10 * pow10((w - 1 - t.len()) as nat));
        assert(digits_num(t) * pow10((w - t.len()) as nat) == 10 * (digits_num(t) * pow10((w - 1 - t.len()) as nat))) by (nonlinear_arith)
            requires
                pow10((w - t.len()) as nat) == 10 * pow10((w - 1 - t.len()) as nat),
        ;
    } else {
        let t = fixed_digits(f, w);
        lemma_fixed_digits(f, w);
        lemma_fixed_digits_read_back(f, w);
        lemma_pow10_pos(w);
        assert(f % (pow10(w) as nat) == f) by {
            vstd::arithmetic::div_mod::lemma_small_mod(f, pow10(w) as nat);
        }
        assert(t.last() == digit_char((f % 10) as int));
        assert(w - t.len() == 0);
    }
}

/// A number's text after its sign: all of it, or all but a leading `-`.
pub open spec fn unsigned_part(t: Seq<char>) -> Seq<char> {
    if t.len() > 0 && t[0] == '-' { t.drop_first() } else { t }
}

/// Law: the text written for a coordinate in millionths of a degree reads back, as a
/// decimal number, as the same coordinate: a `-` exactly when it is negative, then the
/// whole degrees in digits and, when there is a fractional part, a `.` and one to six
/// digits with no trailing zero, which scaled to millionths give the fractional part.
pub proof fn law_micro_degrees_read_back(v: int)
    ensures
        (micro_degrees_text(v).len() > 0 && micro_degrees_text(v)[0] == '-') <==> v < 0,
        ({
            let t = micro_degrees_text(v);
            let a = if v < 0 { -v } else { v };
            let body = unsigned_part(t);
            a % 1000000 == 0 ==> {
                &&& body.len() >= 1
                &&& all_digits(body)
                &&& digits_num(body) * 1000000 == a
            }
        }),
        ({
            let t = micro_degrees_text(v);
            let a = if v < 0 { -v } else { v };
            let body = unsigned_part(t);
            a % 1000000 != 0 ==> exists|k: int|
                {
                    &&& 1 <= k
                    &&& k + 2 <= body.len() <= k + 7
                    &&& #[trigger] body[k] == '.'
                    &&& all_digits(body.take(k))
                    &&& all_digits(body.skip(k + 1))
                    &&& body.last() != '0'
                    &&& digits_num(body.take(k)) * 1000000 + digits_num(body.skip(k + 1))
                        * pow10((k + 7 - body.len()) as nat) == a
                }
        }),
{
    let t = micro_degrees_text(v);
    let a: nat = if v < 0 { (-v) as nat } else { v as nat };
    let sign: Seq<char> = if v < 0 { seq!['-'] } else { seq![] };
    let whole = dec(a / 1000000);
    let frac: nat = a % 1000000;
    let body = unsigned_part(t);
    let ai: int = if v < 0 { -v } else { v };
    assert(ai == a);
    lemma_dec_reads_back(a / 1000000);
    assert(is_digit(whole[0]));
    assert(a == (a / 1000000) * 1000000 + frac) by {
        vstd::arithmetic::div_mod::lemma_fundamental_div_mod(a as int, 1000000);
    }
    if frac == 0 {
        assert(t =~= sign + whole);
        assert(body =~= whole);
        assert(t[0] == if v < 0 { '-' } else { whole[0] });
        assert(ai % 1000000 == 0);
    } else {
        let tail = trimmed_digits(frac, 6);
        assert(pow10(6) == 1000000) by {
            reveal_with_fuel(pow10, 7);
        }
        lemma_trimmed_digits_read_back(frac, 6);
        assert(t =~= sign + (whole + seq!['.'] + tail));
        assert(body =~= whole + seq!['.'] + tail);
        assert(t[0] == if v < 0 { '-' } else { whole[0] });
        let k = whole.len() as int;
        assert(body.take(k) =~= whole);
        assert(body.skip(k + 1) =~= tail);
        assert(body[k] == '.');
        assert((k + 7 - body.len()) as nat == (6 - tail.len()) as nat);
        assert(digits_num(body.take(k)) * 1000000 + digits_num(body.skip(k + 1)) * pow10(
            (k + 7 - body.len()) as nat,
        ) == a);
        assert(body.last() == tail.last());
        assert(1 <= k && k + 2 <= body.len() <= k + 7);
        assert(exists|j: int|
            {
                &&& 1 <= j
                &&& j + 2 <= body.len() <= j + 7
                &&& #[trigger] body[j] == '.'
                &&& all_digits(body.take(j))
                &&& all_digits(body.skip(j + 1))
                &&& body.last() != '0'
                &&& digits_num(body.take(j)) * 1000000 + digits_num(body.skip(j + 1))
                    * pow10((j + 7 - body.len()) as nat) == ai
            });
    }
}

} // verus!
