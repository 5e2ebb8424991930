//! What the texts the library writes say when read back: decimal numbers
//! give back their value, and a time of day gives back the time it was
//! written from.
use crate::master_app::spec_time_text;
use crate::text::{dec_char, dec_text, dec_text_padded, int_text, pow10};
use crate::parse::{digit_value, spec_parse_int, spec_scan_decimal};
use crate::data_point::DataPointValue;
use crate::slave_app::spec_parse_point_value;
use vstd::prelude::*;

verus! {

/// Whether `c` is one of the ten decimal digits.
pub open spec fn is_digit(c: char) -> bool {
    '0' <= c && c <= '9'
}

/// The value of a decimal digit character.
pub open spec fn digit_of(c: char) -> int {
    c as int - '0' as int
}

/// The value of a string of decimal digits, most significant first.
pub open spec fn digits_value(s: Seq<char>) -> int
    decreases s.len(),
{
    if s.len() == 0 { 0 } else { 10 * digits_value(s.drop_last()) + digit_of(s.last()) }
}

proof fn lemma_dec_char(d: int)
    requires
        0 <= d <= 9,
    ensures
        is_digit(dec_char(d)),
        digit_of(dec_char(d)) == d,
{
}

proof fn lemma_push_value(s: Seq<char>, c: char)
    ensures
        digits_value(s.push(c)) == 10 * digits_value(s) + digit_of(c),
{
    assert(s.push(c).drop_last() =~= s);
}

proof fn lemma_leading_zero(s: Seq<char>)
    ensures
        digits_value(seq!['0'] + s) == digits_value(s),
    decreases s.len(),
{
    if s.len() > 0 {
        lemma_leading_zero(s.drop_last());
        assert((seq!['0'] + s).drop_last() =~= seq!['0'] + s.drop_last());
        assert((seq!['0'] + s).last() == s.last());
    } else {
        assert((seq!['0'] + s).drop_last() =~= Seq::<char>::empty());
        assert(digits_value(Seq::<char>::empty()) == 0);
        assert((seq!['0'] + s).last() == '0');
    }
}

proof fn lemma_pow10_pos(e: nat)
    ensures
        pow10(e) >= 1,
    decreases e,
{
    if e > 0 {
        lemma_pow10_pos((e - 1) as nat);
    }
}

/// `dec_text(n)` is made of digits and reads back as `n`; it has `k`
/// digits when `n` lies in `[10^(k-1), 10^k)` (or `k` is 1 and `n` < 10).
proof fn lemma_dec_text(n: nat, k: nat)
    requires
        k >= 1,
        n < pow10(k),
        k == 1 || n >= pow10((k - 1) as nat),
    ensures
        dec_text(n).len() == k,
        digits_value(dec_text(n)) == n,
        forall|i: int| 0 <= i < dec_text(n).len() ==> is_digit(#[trigger] dec_text(n)[i]),
    decreases n,
{
    if n < 10 {
        lemma_dec_char(n as int);
        assert(dec_text(n) == seq![dec_char(n as int)]);
        assert(dec_text(n).drop_last() =~= Seq::<char>::empty());
        assert(digits_value(Seq::<char>::empty()) == 0);
        assert(dec_text(n).last() == dec_char(n as int));
        if k > 1 {
            lemma_pow10_pos((k - 2) as nat);
            assert(pow10((k - 1) as nat) == 10 * pow10((k - 2) as nat));
        }
    } else {
        assert(k > 1) by {
            if k == 1 {
                assert(pow10(1) == 10 * pow10(0));
            }
        }
        let m = n / 10;
        assert(pow10(k) == 10 * pow10((k - 1) as nat));
        if k > 2 {
            assert(pow10((k - 1) as nat) == 10 * pow10((k - 2) as nat));
        }
        lemma_dec_text(m, (k - 1) as nat);
        lemma_dec_char((n % 10) as int);
        lemma_push_value(dec_text(m), dec_char((n % 10) as int));
        let t = dec_text(n);
        assert forall|i: int| 0 <= i < t.len() implies is_digit(#[trigger] t[i]) by {
            if i < t.len() - 1 {
                assert(t[i] == dec_text(m)[i]);
            }
        }
    }
}

/// `dec_text_padded(n, w)` of a number below `10^w` has exactly `w`
/// digits and reads back as `n`.
proof fn lemma_padded(n: nat, w: nat)
    requires
        w >= 1,
        n < pow10(w),
    ensures
        dec_text_padded(n, w).len() == w,
        digits_value(dec_text_padded(n, w)) == n,
        forall|i: int| 0 <= i < w ==> is_digit(#[trigger] dec_text_padded(n, w)[i]),
    decreases w,
{
    if w <= 1 {
        lemma_dec_text(n, 1);
    } else if n < pow10((w - 1) as nat) {
        lemma_padded(n, (w - 1) as nat);
        let r = dec_text_padded(n, (w - 1) as nat);
        lemma_leading_zero(r);
        assert forall|i: int| 0 <= i < w implies is_digit(#[trigger] dec_text_padded(n, w)[i]) by {
            if i > 0 {
                assert(dec_text_padded(n, w)[i] == r[i - 1]);
            }
        }
    } else {
        lemma_dec_text(n, w);
    }
}

/// A time of day written as `HH:MM:SS.mmm` reads back as the time it was
/// written from: two digits of hour (below 24), colon, two of minute
/// (below 60), colon, two of second (below 60), point, three of
/// millisecond, together the milliseconds since midnight UTC of `ms`.
pub proof fn lemma_time_text_reads_back(ms: i64)
    ensures
        ({
            let s = spec_time_text(ms);
            let h = digits_value(s.subrange(0, 2));
            let m = digits_value(s.subrange(3, 5));
            let sec = digits_value(s.subrange(6, 8));
            let milli = digits_value(s.subrange(9, 12));
            &&& s.len() == 12
            &&& s[2] == ':' && s[5] == ':' && s[8] == '.'
            &&& forall|i: int| 0 <= i < 12 && i != 2 && i != 5 && i != 8 ==> is_digit(#[trigger] s[i])
            &&& h < 24 && m < 60 && sec < 60 && milli < 1000
            &&& h * 3_600_000 + m * 60_000 + sec * 1000 + milli == ms as int % 86_400_000
        }),
{
    let d = ms as int % 86_400_000;
    let hh = (d / 3_600_000) as nat;
    let mm = ((d / 60_000) % 60) as nat;
    let ss = ((d / 1000) % 60) as nat;
    let ll = (d % 1000) as nat;
    assert(pow10(2) == 100) by {
        assert(pow10(0) == 1);
        assert(pow10(1) == 10);
    }
    assert(pow10(3) == 1000);
    lemma_padded(hh, 2);
    lemma_padded(mm, 2);
    lemma_padded(ss, 2);
    lemma_padded(ll, 3);
    let a = dec_text_padded(hh, 2);
    let b = dec_text_padded(mm, 2);
    let c = dec_text_padded(ss, 2);
    let e = dec_text_padded(ll, 3);
    let s = spec_time_text(ms);
    assert(s == a + seq![':'] + b + seq![':'] + c + seq!['.'] + e);
    assert(s.subrange(0, 2) =~= a);
    assert(s.subrange(3, 5) =~= b);
    assert(s.subrange(6, 8) =~= c);
    assert(s.subrange(9, 12) =~= e);
    assert forall|i: int| 0 <= i < 12 && i != 2 && i != 5 && i != 8 implies is_digit(#[trigger] s[i]) by {
        if i < 2 { assert(s[i] == a[i]); }
        else if i < 5 { assert(s[i] == b[i - 3]); }
        else if i < 8 { assert(s[i] == c[i - 6]); }
        else { assert(s[i] == e[i - 9]); }
    }
}

proof fn lemma_dec_text_digits(n: nat)
    ensures
        dec_text(n).len() >= 1,
        forall|i: int| 0 <= i < dec_text(n).len() ==> is_digit(#[trigger] dec_text(n)[i]),
    decreases n,
{
    lemma_dec_char((n % 10) as int);
    if n >= 10 {
        lemma_dec_text_digits(n / 10);
        let t = dec_text(n);
        assert forall|i: int| 0 <= i < t.len() implies is_digit(#[trigger] t[i]) by {
            if i < t.len() - 1 {
                assert(t[i] == dec_text(n / 10)[i]);
            }
        }
    } else {
        lemma_dec_char(n as int);
    }
}

proof fn lemma_scan_dec_text(k: nat, neg: bool, min: int, max: int)
    requires
        min <= 0 <= max,
        neg ==> min <= -k,
        !neg ==> k <= max,
    ensures
        spec_scan_decimal(dec_text(k), neg, min, max) == Ok::<int, crate::parse::IntErrorKind>(if neg { -k } else { k as int }),
    decreases k,
{
    let d = k % 10;
    lemma_dec_char(d as int);
    assert(digit_value(dec_char(d as int), 10) == Some(d));
    if k < 10 {
        assert(dec_text(k) == seq![dec_char(k as int)]);
        assert(dec_text(k).drop_last() =~= Seq::<char>::empty());
        assert(dec_text(k).last() == dec_char(k as int));
        assert(spec_scan_decimal(Seq::<char>::empty(), neg, min, max) == Ok::<int, crate::parse::IntErrorKind>(0));
        assert(d == k);
    } else {
        lemma_scan_dec_text(k / 10, neg, min, max);
        assert(dec_text(k).drop_last() =~= dec_text(k / 10));
        assert(dec_text(k).last() == dec_char(d as int));
        assert((k / 10) as int * 10 + d == k);
        assert(-((k / 10) as int) * 10 - d == -k);
    }
}

/// A number written in decimal (with a leading `-` when negative) parses
/// back as itself, for every number within the range of the type it is
/// parsed as.
pub proof fn lemma_int_text_parses_back(n: int, min: int, max: int)
    requires
        min <= 0 <= max,
        min <= n <= max,
    ensures
        spec_parse_int(int_text(n), true, min, max) == Ok::<int, crate::parse::IntErrorKind>(n),
        n >= 0 ==> spec_parse_int(int_text(n), false, min, max) == Ok::<int, crate::parse::IntErrorKind>(n),
{
    if n < 0 {
        let k = (-n) as nat;
        lemma_dec_text_digits(k);
        lemma_scan_dec_text(k, true, min, max);
        let s = int_text(n);
        assert(s.drop_first() =~= dec_text(k));
    } else {
        let k = n as nat;
        lemma_dec_text_digits(k);
        assert(is_digit(dec_text(k)[0]));
        lemma_scan_dec_text(k, false, min, max);
    }
}

/// A value typed in for a point of the slave is read as the point's kind
/// of value: a scaled value, a double point's state and a counter's value
/// from their decimal text (a counter keeps its carry and sequence
/// number), a single point's state from `true`/`1`/`ON`/`on` or
/// `false`/`0`/`OFF`/`off`.
pub proof fn lemma_point_value_text(old_scaled: i16, old_dp: u8, carry: bool, sequence: u8, v: i16, b: u8, n: i32, old_sp: bool, text: Seq<char>)
    ensures
        spec_parse_point_value(DataPointValue::Scaled { value: old_scaled }, int_text(v as int))
            == Ok::<DataPointValue, Seq<char>>(DataPointValue::Scaled { value: v }),
        spec_parse_point_value(DataPointValue::DoublePoint { value: old_dp }, int_text(b as int))
            == Ok::<DataPointValue, Seq<char>>(DataPointValue::DoublePoint { value: b }),
        spec_parse_point_value(DataPointValue::IntegratedTotal { value: 0, carry, sequence }, int_text(n as int))
            == Ok::<DataPointValue, Seq<char>>(DataPointValue::IntegratedTotal { value: n, carry, sequence }),
        (text == "true"@ || text == "1"@ || text == "ON"@ || text == "on"@)
            ==> spec_parse_point_value(DataPointValue::SinglePoint { value: old_sp }, text)
                == Ok::<DataPointValue, Seq<char>>(DataPointValue::SinglePoint { value: true }),
        (text == "false"@ || text == "0"@ || text == "OFF"@ || text == "off"@)
            ==> spec_parse_point_value(DataPointValue::SinglePoint { value: old_sp }, text)
                == Ok::<DataPointValue, Seq<char>>(DataPointValue::SinglePoint { value: false }),
{
    lemma_int_text_parses_back(v as int, -32768, 32767);
    lemma_int_text_parses_back(b as int, 0, 255);
    lemma_int_text_parses_back(n as int, -0x8000_0000, 0x7FFF_FFFF);
    reveal_strlit("true");
    reveal_strlit("1");
    reveal_strlit("ON");
    reveal_strlit("on");
    reveal_strlit("false");
    reveal_strlit("0");
    reveal_strlit("OFF");
    reveal_strlit("off");
}

} // verus!
