use vstd::prelude::*;

verus! {

/// The ASCII digit for `d` (0..=9).
pub open spec fn digit_char(d: nat) -> char {
    if d == 0 { '0' }
    else if d == 1 { '1' }
    else if d == 2 { '2' }
    else if d == 3 { '3' }
    else if d == 4 { '4' }
    else if d == 5 { '5' }
    else if d == 6 { '6' }
    else if d == 7 { '7' }
    else if d == 8 { '8' }
    else { '9' }
}

/// Base-10 rendering of `n`, most significant digit first, no leading zeros.
pub open spec fn decimal(n: nat) -> Seq<char>
    decreases n,
{
    if n < 10 {
        seq![digit_char(n)]
    } else {
        decimal(n / 10).push(digit_char(n % 10))
    }
}

/// `k` zero characters.
pub open spec fn zeros(k: nat) -> Seq<char> {
    Seq::new(k, |i: int| '0')
}

/// `n` in base 10, left-padded with zeros to at least `width` characters.
pub open spec fn padded_decimal(n: nat, width: nat) -> Seq<char> {
    let d = decimal(n);
    if d.len() < width {
        zeros((width - d.len()) as nat) + d
    } else {
        d
    }
}

/// A signed integer zero-padded to `width` characters, the minus sign
/// counting towards the width (as Rust's `{:0w}` renders it).
pub open spec fn padded_signed(v: int, width: nat) -> Seq<char> {
    if v >= 0 {
        padded_decimal(v as nat, width)
    } else if width >= 1 {
        seq!['-'] + padded_decimal((-v) as nat, (width - 1) as nat)
    } else {
        seq!['-'] + decimal((-v) as nat)
    }
}

/// Appends one character to a string (std's `String::push`).
#[verifier::external_body]
pub(crate) fn push_char(s: &mut String, c: char)
    ensures
        final(s)@ == old(s)@.push(c),
{
    s.push(c);
}

/// Whether std counts `c` as alphanumeric (alphabetic or numeric in the
/// Unicode tables of `char::is_alphanumeric`).
pub uninterp spec fn char_is_alphanumeric(c: char) -> bool;

/// An ASCII letter or digit.
pub open spec fn is_ascii_alnum(c: char) -> bool {
    ('a' <= c && c <= 'z') || ('A' <= c && c <= 'Z') || ('0' <= c && c <= '9')
}

/// std's `char::is_alphanumeric`. Its documentation: true when the char is
/// alphabetic or numeric; among ASCII characters those are exactly the
/// letters and digits. Which non-ASCII characters qualify is left to the
/// name: it follows Unicode's tables.
#[verifier::external_body]
pub(crate) fn is_alphanumeric(c: char) -> (b: bool)
    ensures
        b == char_is_alphanumeric(c),
        (c as u32) < 128 ==> (b <==> is_ascii_alnum(c)),
{
    c.is_alphanumeric()
}

/// Bytes `c` takes in UTF-8.
pub open spec fn utf8_len(c: char) -> int {
    if (c as u32) < 0x80 {
        1
    } else if (c as u32) < 0x800 {
        2
    } else if (c as u32) < 0x10000 {
        3
    } else {
        4
    }
}

/// Bytes the characters `s` take in UTF-8 (a `String`'s `len`).
pub open spec fn utf8_len_of(s: Seq<char>) -> int
    decreases s.len(),
{
    if s.len() == 0 {
        0
    } else {
        utf8_len_of(s.drop_last()) + utf8_len(s.last())
    }
}

proof fn lemma_utf8_len_prefix(s: Seq<char>, i: int)
    requires
        0 <= i <= s.len(),
    ensures
        0 <= utf8_len_of(s.take(i)) <= utf8_len_of(s),
    decreases s.len(),
{
    if s.len() > 0 {
        if i == s.len() {
            assert(s.take(i) =~= s);
            lemma_utf8_len_prefix(s.drop_last(), i - 1);
        } else {
            assert(s.drop_last().take(i) =~= s.take(i));
            lemma_utf8_len_prefix(s.drop_last(), i);
        }
    }
}

fn char_utf8_len(c: char) -> (n: usize)
    ensures
        n == utf8_len(c),
{
    let v = c as u32;
    if v < 0x80 {
        1
    } else if v < 0x800 {
        2
    } else if v < 0x10000 {
        3
    } else {
        4
    }
}

/// Whether the characters of `s` take fewer than `limit` bytes in UTF-8.
pub fn utf8_len_below(s: &Vec<char>, limit: usize) -> (b: bool)
    requires
        limit <= usize::MAX - 4,
    ensures
        b == (utf8_len_of(s@) < limit),
{
    if limit == 0 {
        proof {
            lemma_utf8_len_prefix(s@, 0);
        }
        return false;
    }
    let mut total: usize = 0;
    let mut i: usize = 0;
    while i < s.len()
        invariant
            i <= s@.len(),
            limit <= usize::MAX - 4,
            total == utf8_len_of(s@.take(i as int)),
            total < limit,
        decreases s@.len() - i,
    {
        proof {
            assert(s@.take(i as int + 1).drop_last() =~= s@.take(i as int));
        }
        total = total + char_utf8_len(s[i]);
        i = i + 1;
        if total >= limit {
            proof {
                lemma_utf8_len_prefix(s@, i as int);
            }
            return false;
        }
    }
    proof {
        assert(s@.take(i as int) =~= s@);
    }
    true
}

/// `c` with an ASCII lower-case letter made upper case (`char::to_ascii_uppercase`).
pub open spec fn ascii_upper(c: char) -> char {
    if 'a' <= c && c <= 'z' { ((c as u32) - 32) as char } else { c }
}

/// std's `char::to_ascii_uppercase`, whose whole behaviour is `ascii_upper`.
pub fn to_ascii_upper(c: char) -> (u: char)
    ensures
        u == ascii_upper(c),
{
    if 'a' <= c && c <= 'z' {
        let v: u8 = (c as u32 - 32) as u8;
        v as char
    } else {
        c
    }
}

fn digit(d: u64) -> (c: char)
    requires
        d < 10,
    ensures
        c == digit_char(d as nat),
{
    if d == 0 { '0' }
    else if d == 1 { '1' }
    else if d == 2 { '2' }
    else if d == 3 { '3' }
    else if d == 4 { '4' }
    else if d == 5 { '5' }
    else if d == 6 { '6' }
    else if d == 7 { '7' }
    else if d == 8 { '8' }
    else { '9' }
}

/// Number of base-10 digits of `n`.
fn decimal_len(n: u64) -> (len: u64)
    ensures
        len == decimal(n as nat).len(),
        1 <= len <= n as int + 1,
    decreases n,
{
    if n < 10 {
        1
    } else {
        decimal_len(n / 10) + 1
    }
}

/// Appends `n` in base 10.
pub fn push_decimal(s: &mut String, n: u64)
    ensures
        final(s)@ == old(s)@ + decimal(n as nat),
    decreases n,
{
    if n >= 10 {
        push_decimal(s, n / 10);
    }
    push_char(s, digit(n % 10));
    assert(final(s)@ =~= old(s)@ + decimal(n as nat));
}

/// Appends `n` in base 10, zero-padded to at least `width` characters.
pub fn push_padded(s: &mut String, n: u64, width: usize)
    ensures
        final(s)@ == old(s)@ + padded_decimal(n as nat, width as nat),
{
    let len = decimal_len(n);
    let ghost start = s@;
    if len < width as u64 {
        let pad: usize = width - len as usize;
        let mut k: usize = 0;
        while k < pad
            invariant
                pad == width - len,
                k <= pad,
                s@ == start + zeros(k as nat),
            decreases pad - k,
        {
            push_char(s, '0');
            k = k + 1;
            assert(s@ =~= start + zeros(k as nat));
        }
    }
    push_decimal(s, n);
    assert(s@ =~= start + padded_decimal(n as nat, width as nat));
}

/// Appends a signed `v` zero-padded to `width` characters, the sign
/// counting towards the width.
pub fn push_padded_signed(s: &mut String, v: i64, width: usize)
    requires
        v > i64::MIN,
    ensures
        final(s)@ == old(s)@ + padded_signed(v as int, width as nat),
{
    let ghost start = s@;
    if v >= 0 {
        push_padded(s, v as u64, width);
    } else {
        push_char(s, '-');
        let mag = (-v) as u64;
        if width >= 1 {
            push_padded(s, mag, width - 1);
        } else {
            push_decimal(s, mag);
        }
        assert(s@ =~= start + padded_signed(v as int, width as nat));
    }
}

} // verus!
