//! Character-level text helpers: UTF-8 widths, decimal rendering and string building.

use vstd::prelude::*;

verus! {

/// Number of bytes the UTF-8 encoding of `c` takes.
pub open spec fn char_width(c: char) -> nat {
    let u = c as u32;
    if u < 0x80 {
        1
    } else if u < 0x800 {
        2
    } else if u < 0x10000 {
        3
    } else {
        4
    }
}

/// Number of bytes the UTF-8 encoding of `s` takes.
pub open spec fn byte_len(s: Seq<char>) -> nat
    decreases s.len(),
{
    if s.len() == 0 {
        0
    } else {
        char_width(s[0]) + byte_len(s.drop_first())
    }
}

/// Byte length distributes over concatenation.
pub proof fn lemma_byte_len_concat(a: Seq<char>, b: Seq<char>)
    ensures
        byte_len(a + b) == byte_len(a) + byte_len(b),
    decreases a.len(),
{
    if a.len() == 0 {
        assert(a + b =~= b);
    } else {
        assert((a + b).drop_first() =~= a.drop_first() + b);
        lemma_byte_len_concat(a.drop_first(), b);
    }
}

/// A sequence takes at least one byte per character.
pub proof fn lemma_byte_len_ge_len(s: Seq<char>)
    ensures
        byte_len(s) >= s.len(),
    decreases s.len(),
{
    if s.len() > 0 {
        lemma_byte_len_ge_len(s.drop_first());
    }
}

/// Byte length of a sequence with one more character at the end.
pub proof fn lemma_byte_len_push(s: Seq<char>, c: char)
    ensures
        byte_len(s.push(c)) == byte_len(s) + char_width(c),
{
    lemma_byte_len_concat(s, seq![c]);
    assert(s.push(c) =~= s + seq![c]);
    assert(seq![c].drop_first() =~= Seq::<char>::empty());
    assert(byte_len(seq![c].drop_first()) == 0);
    assert(byte_len(seq![c]) == char_width(c));
}

/// `byte_len` is the length of vstd's UTF-8 encoding.
pub proof fn lemma_byte_len_is_encoding_len(s: Seq<char>)
    ensures
        byte_len(s) == vstd::utf8::encode_utf8(s).len(),
    decreases s.len(),
{
    if s.len() > 0 {
        vstd::utf8::char_is_scalar(s[0]);
        lemma_byte_len_is_encoding_len(s.drop_first());
        assert(vstd::utf8::encode_scalar(s[0] as u32).len() == char_width(s[0]));
    }
}

/// Bytes that `c` takes in UTF-8.
pub(crate) fn utf8_width(c: char) -> (w: usize)
    ensures
        w == char_width(c),
        1 <= w <= 4,
{
    let u = c as u32;
    if u < 0x80 {
        1
    } else if u < 0x800 {
        2
    } else if u < 0x10000 {
        3
    } else {
        4
    }
}

/// The decimal digit character for `d < 10`.
pub open spec fn digit_char(d: nat) -> char {
    if d == 0 {
        '0'
    } else if d == 1 {
        '1'
    } else if d == 2 {
        '2'
    } else if d == 3 {
        '3'
    } else if d == 4 {
        '4'
    } else if d == 5 {
        '5'
    } else if d == 6 {
        '6'
    } else if d == 7 {
        '7'
    } else if d == 8 {
        '8'
    } else {
        '9'
    }
}

/// Decimal rendering of `n`, most significant digit first, without leading zeros.
pub open spec fn decimal(n: nat) -> Seq<char>
    decreases n,
{
    if n < 10 {
        seq![digit_char(n)]
    } else {
        decimal(n / 10).push(digit_char(n % 10))
    }
}

/// `String::push`: appends one character.
#[verifier::external_body]
pub(crate) fn push_char(s: &mut String, c: char)
    ensures
        final(s)@ == old(s)@.push(c),
{
    s.push(c)
}

/// The characters of `s`, in order.
pub(crate) fn chars_of(s: &str) -> (v: Vec<char>)
    ensures
        v@ == s@,
{
    let n = s.unicode_len();
    let mut v: Vec<char> = Vec::new();
    let mut i: usize = 0;
    while i < n
        invariant
            n == s@.len(),
            i <= n,
            v@ == s@.take(i as int),
        decreases n - i,
    {
        v.push(s.get_char(i));
        i = i + 1;
        assert(v@ =~= s@.take(i as int));
    }
    assert(s@.take(n as int) =~= s@);
    v
}

/// A `String` holding the characters of `v`.
pub(crate) fn string_of(v: &Vec<char>) -> (r: String)
    ensures
        r@ == v@,
{
    let mut r = String::new();
    let mut i: usize = 0;
    while i < v.len()
        invariant
            i <= v.len(),
            r@ == v@.take(i as int),
        decreases v.len() - i,
    {
        push_char(&mut r, v[i]);
        i = i + 1;
        assert(r@ =~= v@.take(i as int));
    }
    assert(v@.take(v.len() as int) =~= v@);
    r
}

/// Appends the characters of `s` to `v`.
pub(crate) fn extend_with(v: &mut Vec<char>, s: &Vec<char>)
    ensures
        final(v)@ == old(v)@ + s@,
{
    let mut i: usize = 0;
    while i < s.len()
        invariant
            i <= s.len(),
            v@ == old(v)@ + s@.take(i as int),
        decreases s.len() - i,
    {
        v.push(s[i]);
        i = i + 1;
        assert(v@ =~= old(v)@ + s@.take(i as int));
    }
    assert(s@.take(s.len() as int) =~= s@);
}

/// Whether two strings hold the same characters.
pub(crate) fn str_eq(a: &str, b: &str) -> (r: bool)
    ensures
        r == (a@ == b@),
{
    let n = a.unicode_len();
    let m = b.unicode_len();
    if n != m {
        return false;
    }
    let mut i: usize = 0;
    while i < n
        invariant
            n == a@.len(),
            m == b@.len(),
            n == m,
            i <= n,
            forall|j: int| 0 <= j < i ==> a@[j] == b@[j],
        decreases n - i,
    {
        if a.get_char(i) != b.get_char(i) {
            return false;
        }
        i = i + 1;
    }
    assert(a@ =~= b@);
    true
}

/// Decimal digits of `n`.
pub(crate) fn decimal_chars(n: u32) -> (v: Vec<char>)
    ensures
        v@ == decimal(n as nat),
        v@.len() >= 1,
        v@.len() <= 10,
{
    let mut rev: Vec<char> = Vec::new();
    let mut m: u32 = n;
    proof {
        lemma_decimal_len(n as nat);
        assert(rev@.reverse() =~= Seq::<char>::empty());
        assert(decimal(n as nat) =~= decimal(m as nat) + rev@.reverse());
    }
    // digits of n are collected least significant first
    while m >= 10
        invariant
            m <= n,
            decimal(n as nat) == decimal(m as nat) + rev@.reverse(),
            rev@.len() + decimal(m as nat).len() <= 10,
        decreases m,
    {
        let c = char_from_digit(m % 10);
        let ghost old_rev = rev@;
        rev.push(c);
        proof {
            assert(rev@.reverse() =~= seq![c] + old_rev.reverse());
            assert(decimal(m as nat) == decimal((m / 10) as nat).push(c));
            assert(decimal((m / 10) as nat).push(c) + old_rev.reverse()
                =~= decimal((m / 10) as nat) + (seq![c] + old_rev.reverse()));
        }
        m = m / 10;
    }
    let c = char_from_digit(m);
    let ghost old_rev = rev@;
    rev.push(c);
    proof {
        assert(rev@.reverse() =~= seq![c] + old_rev.reverse());
        assert(decimal(m as nat) =~= seq![c]);
    }
    let mut v: Vec<char> = Vec::new();
    let mut i: usize = rev.len();
    while i > 0
        invariant
            i <= rev.len(),
            v@ == rev@.subrange(i as int, rev@.len() as int).reverse(),
        decreases i,
    {
        i = i - 1;
        v.push(rev[i]);
        assert(v@ =~= rev@.subrange(i as int, rev@.len() as int).reverse());
    }
    assert(rev@.subrange(0, rev@.len() as int) =~= rev@);
    v
}

/// The character of a decimal digit.
fn char_from_digit(d: u32) -> (c: char)
    requires
        d < 10,
    ensures
        c == digit_char(d as nat),
        char_width(c) == 1,
{
    match d {
        0 => '0',
        1 => '1',
        2 => '2',
        3 => '3',
        4 => '4',
        5 => '5',
        6 => '6',
        7 => '7',
        8 => '8',
        _ => '9',
    }
}

/// The decimal rendering of a `u32` has between 1 and 10 digits.
pub proof fn lemma_decimal_len(n: nat)
    ensures
        decimal(n).len() >= 1,
        n <= u32::MAX ==> decimal(n).len() <= 10,
        n < 10 ==> decimal(n).len() == 1,
    decreases n,
{
    if n >= 10 {
        lemma_decimal_len(n / 10);
        lemma_decimal_bound(n);
    }
}

/// A number below `10^k` has at most `k` digits.
proof fn lemma_decimal_bound(n: nat)
    ensures
        n < 10 ==> decimal(n).len() == 1,
        n < 100 ==> decimal(n).len() <= 2,
        n < 1000 ==> decimal(n).len() <= 3,
        n < 10000 ==> decimal(n).len() <= 4,
        n < 100000 ==> decimal(n).len() <= 5,
        n < 1000000 ==> decimal(n).len() <= 6,
        n < 10000000 ==> decimal(n).len() <= 7,
        n < 100000000 ==> decimal(n).len() <= 8,
        n < 1000000000 ==> decimal(n).len() <= 9,
        n < 10000000000 ==> decimal(n).len() <= 10,
    decreases n,
{
    if n >= 10 {
        lemma_decimal_bound(n / 10);
    }
}

} // verus!
