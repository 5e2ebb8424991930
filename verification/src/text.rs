//! Text rendering of numbers and bytes: decimal, upper-case hexadecimal and
//! the space-separated hex dump used throughout the logs and the frame tool.
use vstd::prelude::*;

verus! {

/// Wraps `String::push`, which appends one character to the end of a string.
#[verifier::external_body]
pub(crate) fn push_char(s: &mut String, c: char)
    ensures
        final(s)@ == old(s)@.push(c),
{
    s.push(c);
}

/// Character of a decimal digit.
pub open spec fn dec_char(d: int) -> char {
    if d == 0 { '0' } else if d == 1 { '1' } else if d == 2 { '2' } else if d == 3 { '3' }
    else if d == 4 { '4' } else if d == 5 { '5' } else if d == 6 { '6' } else if d == 7 { '7' }
    else if d == 8 { '8' } else { '9' }
}

/// Character of a hexadecimal digit, upper case.
pub open spec fn hex_char(d: int) -> char {
    if d < 10 { dec_char(d) } else if d == 10 { 'A' } else if d == 11 { 'B' } else if d == 12 { 'C' }
    else if d == 13 { 'D' } else if d == 14 { 'E' } else { 'F' }
}

/// Decimal representation of a natural number, without leading zeros.
pub open spec fn dec_text(n: nat) -> Seq<char>
    decreases n,
{
    if n < 10 {
        seq![dec_char(n as int)]
    } else {
        dec_text(n / 10).push(dec_char((n % 10) as int))
    }
}

/// Decimal representation of an integer, with a leading `-` when negative.
pub open spec fn int_text(n: int) -> Seq<char> {
    if n < 0 { seq!['-'] + dec_text((-n) as nat) } else { dec_text(n as nat) }
}

/// Decimal representation padded with zeros on the left to `width` digits.
pub open spec fn dec_text_padded(n: nat, width: nat) -> Seq<char>
    decreases width,
{
    if width <= 1 {
        dec_text(n)
    } else if n < pow10((width - 1) as nat) {
        seq!['0'] + dec_text_padded(n, (width - 1) as nat)
    } else {
        dec_text(n)
    }
}

/// Ten to the power `e`.
pub open spec fn pow10(e: nat) -> nat
    decreases e,
{
    if e == 0 { 1 } else { 10 * pow10((e - 1) as nat) }
}

/// Two upper-case hex digits of a byte.
pub open spec fn hex_byte_text(b: u8) -> Seq<char> {
    seq![hex_char(b as int / 16), hex_char(b as int % 16)]
}

/// Eight upper-case hex digits of a 32-bit word, most significant first.
pub open spec fn hex_word_text(v: u32) -> Seq<char> {
    hex_byte_text((v / 0x100_0000) as u8) + hex_byte_text(((v / 0x1_0000) % 0x100) as u8)
        + hex_byte_text(((v / 0x100) % 0x100) as u8) + hex_byte_text((v % 0x100) as u8)
}

/// Bytes rendered as upper-case hex pairs separated by single spaces.
pub open spec fn hex_dump_text(bytes: Seq<u8>) -> Seq<char>
    decreases bytes.len(),
{
    if bytes.len() == 0 {
        Seq::empty()
    } else if bytes.len() == 1 {
        hex_byte_text(bytes[0])
    } else {
        hex_dump_text(bytes.drop_last()) + seq![' '] + hex_byte_text(bytes.last())
    }
}

fn dec_digit(d: u64) -> (c: char)
    requires
        d < 10,
    ensures
        c == dec_char(d as int),
{
    if d == 0 { '0' } else if d == 1 { '1' } else if d == 2 { '2' } else if d == 3 { '3' }
    else if d == 4 { '4' } else if d == 5 { '5' } else if d == 6 { '6' } else if d == 7 { '7' }
    else if d == 8 { '8' } else { '9' }
}

fn hex_digit(d: u8) -> (c: char)
    requires
        d < 16,
    ensures
        c == hex_char(d as int),
{
    if d < 10 { dec_digit(d as u64) } else if d == 10 { 'A' } else if d == 11 { 'B' }
    else if d == 12 { 'C' } else if d == 13 { 'D' } else if d == 14 { 'E' } else { 'F' }
}

/// Append the decimal representation of `n`.
pub fn push_decimal(s: &mut String, n: u64)
    ensures
        final(s)@ == old(s)@ + dec_text(n as nat),
    decreases n,
{
    if n >= 10 {
        push_decimal(s, n / 10);
    }
    push_char(s, dec_digit(n % 10));
    proof {
        if n >= 10 {
            assert(dec_text(n as nat) == dec_text((n / 10) as nat).push(dec_char((n % 10) as int)));
        }
    }
}

/// Append the decimal representation of a signed number.
pub fn push_signed_decimal(s: &mut String, n: i64)
    ensures
        final(s)@ == old(s)@ + int_text(n as int),
{
    if n < 0 {
        push_char(s, '-');
        let m: u64 = (0i128 - n as i128) as u64;
        push_decimal(s, m);
        assert(final(s)@ == old(s)@ + int_text(n as int)) by {
            assert(int_text(n as int) == seq!['-'] + dec_text(m as nat));
        }
    } else {
        push_decimal(s, n as u64);
    }
}

/// Append the decimal representation of `n`, left-padded with zeros to
/// `width` digits.
pub fn push_decimal_padded(s: &mut String, n: u64, width: u32)
    requires
        width <= 19,
    ensures
        final(s)@ == old(s)@ + dec_text_padded(n as nat, width as nat),
    decreases width,
{
    if width <= 1 {
        push_decimal(s, n);
    } else {
        let bound = pow10_exec(width - 1);
        if n < bound {
            push_char(s, '0');
            push_decimal_padded(s, n, width - 1);
            assert(final(s)@ == old(s)@ + dec_text_padded(n as nat, width as nat));
        } else {
            push_decimal(s, n);
        }
    }
}

fn pow10_exec(e: u32) -> (p: u64)
    requires
        e <= 18,
    ensures
        p == pow10(e as nat),
    decreases e,
{
    if e == 0 {
        1
    } else {
        let q = pow10_exec(e - 1);
        proof { lemma_pow10_bound((e - 1) as nat); }
        10 * q
    }
}

proof fn lemma_pow10_bound(e: nat)
    requires
        e <= 17,
    ensures
        pow10(e) <= 100_000_000_000_000_000,
{
    lemma_pow10_monotone(e, 17);
    reveal_with_fuel(pow10, 18);
}

proof fn lemma_pow10_monotone(a: nat, b: nat)
    requires
        a <= b,
    ensures
        pow10(a) <= pow10(b),
    decreases b,
{
    if a < b {
        lemma_pow10_monotone(a, (b - 1) as nat);
    }
}

/// Append a byte as two upper-case hex digits.
pub fn push_hex_byte(s: &mut String, b: u8)
    ensures
        final(s)@ == old(s)@ + hex_byte_text(b),
{
    push_char(s, hex_digit(b / 16));
    push_char(s, hex_digit(b % 16));
    assert(final(s)@ == old(s)@ + hex_byte_text(b));
}

/// Append a 32-bit word as eight upper-case hex digits.
pub fn push_hex_word(s: &mut String, v: u32)
    ensures
        final(s)@ == old(s)@ + hex_word_text(v),
{
    push_hex_byte(s, (v / 0x100_0000) as u8);
    push_hex_byte(s, ((v / 0x1_0000) % 0x100) as u8);
    push_hex_byte(s, ((v / 0x100) % 0x100) as u8);
    push_hex_byte(s, (v % 0x100) as u8);
    assert(final(s)@ == old(s)@ + hex_word_text(v));
}

/// Format a slice of bytes as space-separated upper-case hex pairs.
pub fn hex_of(buf: &[u8]) -> (s: String)
    ensures
        s@ == hex_dump_text(buf@),
{
    let mut s = String::new();
    let mut i: usize = 0;
    while i < buf.len()
        invariant
            i <= buf.len(),
            s@ == hex_dump_text(buf@.take(i as int)),
        decreases buf.len() - i,
    {
        let ghost before = s@;
        if i > 0 {
            push_char(&mut s, ' ');
        }
        push_hex_byte(&mut s, buf[i]);
        proof {
            let t = buf@.take(i as int + 1);
            assert(t.drop_last() =~= buf@.take(i as int));
            assert(t.last() == buf@[i as int]);
            if i == 0 {
                assert(t.len() == 1);
            }
        }
        i = i + 1;
    }
    assert(buf@.take(buf.len() as int) =~= buf@);
    s
}

} // verus!
