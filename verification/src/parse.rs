//! Reading of user-entered text: whitespace trimming, unsigned integers in
//! decimal or hexadecimal, and hex byte strings.
use crate::text::{dec_text, push_char, push_decimal};
use vstd::prelude::*;

verus! {

/// The characters of a string slice.
pub fn str_chars(s: &str) -> (r: Vec<char>)
    ensures
        r@ == s@,
{
    let n = s.unicode_len();
    let mut r: Vec<char> = Vec::new();
    let mut i: usize = 0;
    while i < n
        invariant
            i <= n,
            n == s@.len(),
            r@ == s@.take(i as int),
        decreases n - i,
    {
        r.push(s.get_char(i));
        i = i + 1;
        assert(r@ =~= s@.take(i as int));
    }
    assert(s@.take(n as int) =~= s@);
    r
}

/// Whether a string slice reads exactly `lit`.
pub fn text_is(s: &str, lit: &str) -> (b: bool)
    ensures
        b == (s@ == lit@),
{
    let a = str_chars(s);
    let c = str_chars(lit);
    if a.len() != c.len() {
        return false;
    }
    let mut i: usize = 0;
    while i < a.len()
        invariant
            i <= a.len(),
            a.len() == c.len(),
            a@ == s@,
            c@ == lit@,
            forall|j: int| 0 <= j < i ==> a@[j] == c@[j],
        decreases a.len() - i,
    {
        if a[i] != c[i] {
            return false;
        }
        i = i + 1;
    }
    assert(a@ =~= c@);
    true
}

/// Unicode `White_Space`, the characters `char::is_whitespace` accepts.
pub open spec fn is_ws(c: char) -> bool {
    ||| '\u{9}' <= c <= '\u{D}'
    ||| c == ' '
    ||| c == '\u{85}'
    ||| c == '\u{A0}'
    ||| c == '\u{1680}'
    ||| '\u{2000}' <= c <= '\u{200A}'
    ||| c == '\u{2028}'
    ||| c == '\u{2029}'
    ||| c == '\u{202F}'
    ||| c == '\u{205F}'
    ||| c == '\u{3000}'
}

pub fn is_whitespace(c: char) -> (b: bool)
    ensures
        b == is_ws(c),
{
    ('\u{9}' <= c && c <= '\u{D}') || c == ' ' || c == '\u{85}' || c == '\u{A0}' || c == '\u{1680}'
        || ('\u{2000}' <= c && c <= '\u{200A}') || c == '\u{2028}' || c == '\u{2029}' || c == '\u{202F}'
        || c == '\u{205F}' || c == '\u{3000}'
}

/// Text with leading whitespace removed.
pub open spec fn trim_start(s: Seq<char>) -> Seq<char>
    decreases s.len(),
{
    if s.len() > 0 && is_ws(s[0]) { trim_start(s.drop_first()) } else { s }
}

/// Text with trailing whitespace removed.
pub open spec fn trim_end(s: Seq<char>) -> Seq<char>
    decreases s.len(),
{
    if s.len() > 0 && is_ws(s.last()) { trim_end(s.drop_last()) } else { s }
}

/// Text with leading and trailing whitespace removed (`str::trim`).
pub open spec fn trim(s: Seq<char>) -> Seq<char> {
    trim_end(trim_start(s))
}

proof fn lemma_trim_start(s: Seq<char>, i: int)
    requires
        0 <= i <= s.len(),
        forall|j: int| 0 <= j < i ==> is_ws(#[trigger] s[j]),
    ensures
        trim_start(s) == trim_start(s.skip(i)),
    decreases i,
{
    if i > 0 {
        assert(s.skip(1) =~= s.drop_first());
        lemma_trim_start(s.drop_first(), i - 1);
        assert(s.drop_first().skip(i - 1) =~= s.skip(i));
    } else {
        assert(s.skip(0) =~= s);
    }
}

proof fn lemma_trim_end(s: Seq<char>, n: int)
    requires
        0 <= n <= s.len(),
        forall|j: int| n <= j < s.len() ==> is_ws(#[trigger] s[j]),
    ensures
        trim_end(s) == trim_end(s.take(n)),
    decreases s.len() - n,
{
    if n < s.len() {
        assert(s.take(s.len() - 1) =~= s.drop_last());
        lemma_trim_end(s.drop_last(), n);
        assert(s.drop_last().take(n) =~= s.take(n));
    } else {
        assert(s.take(n) =~= s);
    }
}

/// Bounds `[a, b)` of `cs` after trimming whitespace at both ends.
fn trim_bounds(cs: &Vec<char>) -> (r: (usize, usize))
    ensures
        r.0 <= r.1 <= cs.len(),
        cs@.subrange(r.0 as int, r.1 as int) == trim(cs@),
{
    let mut a: usize = 0;
    while a < cs.len() && is_whitespace(cs[a])
        invariant
            a <= cs.len(),
            forall|j: int| 0 <= j < a ==> is_ws(#[trigger] cs@[j]),
        decreases cs.len() - a,
    {
        a = a + 1;
    }
    let mut b: usize = cs.len();
    while b > a && is_whitespace(cs[b - 1])
        invariant
            a <= b <= cs.len(),
            forall|j: int| b <= j < cs.len() ==> is_ws(#[trigger] cs@[j]),
        decreases b - a,
    {
        b = b - 1;
    }
    proof {
        lemma_trim_start(cs@, a as int);
        let t = cs@.skip(a as int);
        assert(!(t.len() > 0 && is_ws(t[0])));
        assert(trim_start(cs@) == t);
        lemma_trim_end(t, (b - a) as int);
        let u = t.take((b - a) as int);
        assert(u =~= cs@.subrange(a as int, b as int));
        assert(!(u.len() > 0 && is_ws(u.last())));
    }
    (a, b)
}

/// Value of a digit in the given radix (at most 16), if it is one.
pub open spec fn digit_value(c: char, radix: nat) -> Option<nat> {
    let v: int = if '0' <= c <= '9' { c as int - '0' as int }
        else if 'a' <= c <= 'f' { c as int - 'a' as int + 10 }
        else if 'A' <= c <= 'F' { c as int - 'A' as int + 10 }
        else { 99 };
    if v < radix { Some(v as nat) } else { None }
}

fn digit_of(c: char, radix: u32) -> (r: Option<u32>)
    requires
        radix <= 16,
    ensures
        r matches Some(v) ==> digit_value(c, radix as nat) == Some(v as nat),
        r is None ==> digit_value(c, radix as nat) is None,
{
    let v: u32 = if '0' <= c && c <= '9' { c as u32 - '0' as u32 }
        else if 'a' <= c && c <= 'f' { c as u32 - 'a' as u32 + 10 }
        else if 'A' <= c && c <= 'F' { c as u32 - 'A' as u32 + 10 }
        else { 99 };
    if v < radix { Some(v) } else { None }
}

/// Whether every character is a digit of the radix.
pub open spec fn all_digits(s: Seq<char>, radix: nat) -> bool {
    forall|i: int| 0 <= i < s.len() ==> (#[trigger] digit_value(s[i], radix)) is Some
}

/// Value of a string of digits, most significant first.
pub open spec fn digits_value(s: Seq<char>, radix: nat) -> nat
    decreases s.len(),
{
    if s.len() == 0 {
        0
    } else {
        digits_value(s.drop_last(), radix) * radix + digit_value(s.last(), radix).unwrap_or(0)
    }
}

/// What `u32::from_str_radix` reads: an optional `+`, then at least one
/// digit, the value fitting in 32 bits.
pub open spec fn spec_from_str_radix(s: Seq<char>, radix: nat) -> Option<u32> {
    let body = if s.len() > 0 && s[0] == '+' { s.drop_first() } else { s };
    if body.len() > 0 && all_digits(body, radix) && digits_value(body, radix) <= u32::MAX {
        Some(digits_value(body, radix) as u32)
    } else {
        None
    }
}

/// `u32::from_str_radix` over `cs[a..b]`.
fn from_str_radix_at(cs: &Vec<char>, a: usize, b: usize, radix: u32) -> (r: Option<u32>)
    requires
        a <= b <= cs.len(),
        2 <= radix <= 16,
    ensures
        r == spec_from_str_radix(cs@.subrange(a as int, b as int), radix as nat),
{
    let ghost s = cs@.subrange(a as int, b as int);
    let mut start = a;
    if start < b && cs[start] == '+' {
        start = start + 1;
    }
    let ghost body = cs@.subrange(start as int, b as int);
    assert(body == if s.len() > 0 && s[0] == '+' { s.drop_first() } else { s });
    if start == b {
        return None;
    }
    let mut acc: u64 = 0;
    let mut i: usize = start;
    while i < b
        invariant
            start <= i <= b <= cs.len(),
            2 <= radix <= 16,
            body == cs@.subrange(start as int, b as int),
            s == cs@.subrange(a as int, b as int),
            body == (if s.len() > 0 && s[0] == '+' { s.drop_first() } else { s }),
            start < b,
            all_digits(body.take(i - start), radix as nat),
            acc == if digits_value(body.take(i - start), radix as nat) <= u32::MAX {
                digits_value(body.take(i - start), radix as nat)
            } else {
                0x1_0000_0000
            },
        decreases b - i,
    {
        let d = match digit_of(cs[i], radix) {
            Some(d) => d,
            None => {
                assert(body[i - start] == cs@[i as int]);
                assert(digit_value(body[i - start], radix as nat) is None);
                return None;
            },
        };
        proof {
            let k = i - start;
            let t = body.take(k + 1);
            assert(t.drop_last() =~= body.take(k));
            assert(t.last() == cs@[i as int]);
            let v = digits_value(body.take(k), radix as nat);
            if v > u32::MAX {
                assert(v * radix + d >= 0x1_0000_0000) by (nonlinear_arith)
                    requires
                        v > u32::MAX,
                        radix >= 2,
                        d >= 0,
                ;
            }
        }
        acc = if acc > 0xFFFF_FFFF { 0x1_0000_0000 } else {
            assert(acc * radix <= 0xFFFF_FFFFu64 * 16) by (nonlinear_arith)
                requires
                    acc <= 0xFFFF_FFFF,
                    radix <= 16,
            ;
            let nv = acc * radix as u64 + d as u64;
            if nv > 0xFFFF_FFFF { 0x1_0000_0000 } else { nv }
        };
        i = i + 1;
        proof {
            let t = body.take(i - start);
            assert forall|j: int| 0 <= j < t.len() implies (#[trigger] digit_value(t[j], radix as nat)) is Some by {
                if j < t.len() - 1 {
                    assert(t[j] == body.take(i - start - 1)[j]);
                }
            }
        }
    }
    assert(body.take(b - start) =~= body);
    if acc > 0xFFFF_FFFF { None } else { Some(acc as u32) }
}

/// What a `0x`/`0X`-prefixed or plain text reads as after trimming.
pub open spec fn spec_parse_u32_value(s: Seq<char>) -> Option<u32> {
    let t = trim(s);
    if t.len() >= 2 && t[0] == '0' && (t[1] == 'x' || t[1] == 'X') {
        spec_from_str_radix(t.skip(2), 16)
    } else {
        spec_from_str_radix(t, 10)
    }
}

/// Read an unsigned 32-bit value, hexadecimal with a `0x` / `0X` prefix,
/// decimal otherwise; surrounding whitespace is ignored.
pub fn parse_u32_value(s: &str) -> (r: Option<u32>)
    ensures
        r == spec_parse_u32_value(s@),
{
    let cs = str_chars(s);
    let (a, b) = trim_bounds(&cs);
    let ghost t = cs@.subrange(a as int, b as int);
    if b - a >= 2 && cs[a] == '0' && (cs[a + 1] == 'x' || cs[a + 1] == 'X') {
        assert(t.skip(2) =~= cs@.subrange(a + 2, b as int));
        from_str_radix_at(&cs, a + 2, b, 16)
    } else {
        from_str_radix_at(&cs, a, b, 10)
    }
}

/// Whether a character is an ASCII hex digit.
pub open spec fn is_hex_digit(c: char) -> bool {
    ('0' <= c <= '9') || ('a' <= c <= 'f') || ('A' <= c <= 'F')
}

/// Separators a hex string may carry between digits.
pub open spec fn is_hex_separator(c: char) -> bool {
    is_ws(c) || c == ',' || c == '-' || c == ':'
}

/// The hex digits of `s` with separators dropped, or the first character
/// that is neither.
pub open spec fn spec_hex_scan(s: Seq<char>) -> Result<Seq<char>, char>
    decreases s.len(),
{
    if s.len() == 0 {
        Ok(Seq::empty())
    } else {
        match spec_hex_scan(s.drop_last()) {
            Err(c) => Err(c),
            Ok(cs) => {
                let c = s.last();
                if is_hex_digit(c) { Ok(cs.push(c)) } else if is_hex_separator(c) { Ok(cs) } else { Err(c) }
            },
        }
    }
}

/// Value of a hex digit.
pub open spec fn hex_value(c: char) -> nat {
    digit_value(c, 16).unwrap_or(0)
}

/// Bytes of an even-length run of hex digits, two digits each.
pub open spec fn hex_pairs(cs: Seq<char>) -> Seq<u8> {
    Seq::new(cs.len() / 2, |i: int| (hex_value(cs[2 * i]) * 16 + hex_value(cs[2 * i + 1])) as u8)
}

pub open spec fn msg_illegal_hex_char(c: char) -> Seq<char> {
    "十六进制串包含非法字符 '"@.push(c) + "'"@
}

pub open spec fn msg_empty_hex() -> Seq<char> {
    "十六进制串为空"@
}

pub open spec fn msg_odd_hex(n: nat) -> Seq<char> {
    "十六进制位数为奇数 ("@ + dec_text(n) + " 位),需为偶数"@
}

/// What a hex payload text reads as.
pub open spec fn spec_hex_payload(s: Seq<char>) -> Result<Seq<u8>, Seq<char>> {
    match spec_hex_scan(s) {
        Err(c) => Err(msg_illegal_hex_char(c)),
        Ok(cs) => if cs.len() == 0 {
            Err(msg_empty_hex())
        } else if cs.len() % 2 != 0 {
            Err(msg_odd_hex(cs.len()))
        } else {
            Ok(hex_pairs(cs))
        },
    }
}

fn hex_digit_value(c: char) -> (v: u8)
    requires
        is_hex_digit(c),
    ensures
        v as nat == hex_value(c),
        v < 16,
{
    if '0' <= c && c <= '9' { (c as u32 - '0' as u32) as u8 }
    else if 'a' <= c && c <= 'f' { (c as u32 - 'a' as u32 + 10) as u8 }
    else { (c as u32 - 'A' as u32 + 10) as u8 }
}

/// Read a hex byte string; digits may be separated by whitespace, `,`,
/// `-` or `:`.
pub fn parse_hex_payload(s: &str) -> (r: Result<Vec<u8>, String>)
    ensures
        match r {
            Ok(b) => spec_hex_payload(s@) == Ok::<Seq<u8>, Seq<char>>(b@),
            Err(m) => spec_hex_payload(s@) == Err::<Seq<u8>, Seq<char>>(m@),
        },
{
    let chars = str_chars(s);
    let mut compact: Vec<char> = Vec::new();
    let mut i: usize = 0;
    while i < chars.len()
        invariant
            i <= chars.len(),
            chars@ == s@,
            spec_hex_scan(chars@.take(i as int)) == Ok::<Seq<char>, char>(compact@),
            forall|j: int| 0 <= j < compact@.len() ==> is_hex_digit(#[trigger] compact@[j]),
        decreases chars.len() - i,
    {
        let c = chars[i];
        assert(chars@.take(i + 1).drop_last() =~= chars@.take(i as int));
        let hex = ('0' <= c && c <= '9') || ('a' <= c && c <= 'f') || ('A' <= c && c <= 'F');
        if hex {
            compact.push(c);
        } else if is_whitespace(c) || c == ',' || c == '-' || c == ':' {
        } else {
            proof {
                lemma_hex_scan_err_sticks(chars@, i as int + 1);
                assert(chars@.take(chars@.len() as int) =~= chars@);
            }
            let mut m = String::from_str("十六进制串包含非法字符 '");
            push_char(&mut m, c);
            m.append("'");
            return Err(m);
        }
        i = i + 1;
    }
    assert(chars@.take(chars.len() as int) =~= chars@);
    if compact.len() == 0 {
        return Err(String::from_str("十六进制串为空"));
    }
    if compact.len() % 2 != 0 {
        let mut m = String::from_str("十六进制位数为奇数 (");
        push_decimal(&mut m, compact.len() as u64);
        m.append(" 位),需为偶数");
        return Err(m);
    }
    let mut out: Vec<u8> = Vec::new();
    let mut k: usize = 0;
    while k < compact.len() / 2
        invariant
            k <= compact.len() / 2,
            compact.len() % 2 == 0,
            forall|j: int| 0 <= j < compact@.len() ==> is_hex_digit(#[trigger] compact@[j]),
            out@ == hex_pairs(compact@).take(k as int),
        decreases compact.len() / 2 - k,
    {
        let hi = hex_digit_value(compact[2 * k]);
        let lo = hex_digit_value(compact[2 * k + 1]);
        out.push(hi * 16 + lo);
        k = k + 1;
        assert(out@ =~= hex_pairs(compact@).take(k as int));
    }
    assert(hex_pairs(compact@).take(k as int) =~= hex_pairs(compact@));
    Ok(out)
}

proof fn lemma_hex_scan_err_sticks(s: Seq<char>, n: int)
    requires
        0 <= n <= s.len(),
        spec_hex_scan(s.take(n)) is Err,
    ensures
        spec_hex_scan(s) == spec_hex_scan(s.take(n)),
    decreases s.len() - n,
{
    if n < s.len() {
        assert(s.take(n + 1).drop_last() =~= s.take(n));
        lemma_hex_scan_err_sticks(s, n + 1);
    } else {
        assert(s.take(n) =~= s);
    }
}

/// What a boolean text reads as: `1`/`true`/`ON` and `0`/`false`/`OFF`.
pub open spec fn spec_parse_bool(s: Seq<char>) -> Result<bool, Seq<char>> {
    if s == "1"@ || s == "true"@ || s == "ON"@ {
        Ok(true)
    } else if s == "0"@ || s == "false"@ || s == "OFF"@ {
        Ok(false)
    } else {
        Err("invalid bool: "@ + s)
    }
}

pub fn parse_bool(s: &str) -> (r: Result<bool, String>)
    ensures
        match r {
            Ok(b) => spec_parse_bool(s@) == Ok::<bool, Seq<char>>(b),
            Err(m) => spec_parse_bool(s@) == Err::<bool, Seq<char>>(m@),
        },
{
    if text_is(s, "1") || text_is(s, "true") || text_is(s, "ON") {
        Ok(true)
    } else if text_is(s, "0") || text_is(s, "false") || text_is(s, "OFF") {
        Ok(false)
    } else {
        let mut m = String::from_str("invalid bool: ");
        m.append(s);
        Err(m)
    }
}

/// Why a text is not an integer of a given type (`std::num::IntErrorKind`).
#[derive(Debug, Clone, Copy, PartialEq, Eq, Structural)]
pub enum IntErrorKind {
    Empty,
    InvalidDigit,
    PosOverflow,
    NegOverflow,
}

impl IntErrorKind {
    /// The message `ParseIntError` displays for each kind.
    pub open spec fn spec_message(self) -> Seq<char> {
        match self {
            IntErrorKind::Empty => "cannot parse integer from empty string"@,
            IntErrorKind::InvalidDigit => "invalid digit found in string"@,
            IntErrorKind::PosOverflow => "number too large to fit in target type"@,
            IntErrorKind::NegOverflow => "number too small to fit in target type"@,
        }
    }

    pub fn message(self) -> (s: String)
        ensures
            s@ == self.spec_message(),
    {
        match self {
            IntErrorKind::Empty => String::from_str("cannot parse integer from empty string"),
            IntErrorKind::InvalidDigit => String::from_str("invalid digit found in string"),
            IntErrorKind::PosOverflow => String::from_str("number too large to fit in target type"),
            IntErrorKind::NegOverflow => String::from_str("number too small to fit in target type"),
        }
    }
}

/// Decimal digits read left to right into a value growing away from zero
/// (downwards when `neg`), stopping at the first character that is no
/// digit or the first step that leaves `[min, max]`.
pub open spec fn spec_scan_decimal(ds: Seq<char>, neg: bool, min: int, max: int) -> Result<int, IntErrorKind>
    decreases ds.len(),
{
    if ds.len() == 0 {
        Ok(0)
    } else {
        match spec_scan_decimal(ds.drop_last(), neg, min, max) {
            Err(e) => Err(e),
            Ok(v) => match digit_value(ds.last(), 10) {
                None => Err(IntErrorKind::InvalidDigit),
                Some(d) => {
                    let x = if neg { v * 10 - d } else { v * 10 + d };
                    if x > max { Err(IntErrorKind::PosOverflow) }
                    else if x < min { Err(IntErrorKind::NegOverflow) }
                    else { Ok(x) }
                },
            },
        }
    }
}

/// What `str::parse` gives for an integer type with range `[min, max]`
/// (`signed` when it has negative values).
pub open spec fn spec_parse_int(s: Seq<char>, signed: bool, min: int, max: int) -> Result<int, IntErrorKind> {
    if s.len() == 0 {
        Err(IntErrorKind::Empty)
    } else if (s[0] == '+' || s[0] == '-') && s.len() == 1 {
        Err(IntErrorKind::InvalidDigit)
    } else if s[0] == '+' {
        spec_scan_decimal(s.drop_first(), false, min, max)
    } else if s[0] == '-' && signed {
        spec_scan_decimal(s.drop_first(), true, min, max)
    } else {
        spec_scan_decimal(s, false, min, max)
    }
}

/// `str::parse` for an integer type whose range is `[min, max]`.
pub fn parse_int(s: &str, signed: bool, min: i64, max: i64) -> (r: Result<i64, IntErrorKind>)
    requires
        -0x1_0000_0000 <= min <= 0 <= max <= 0x1_0000_0000,
    ensures
        match r {
            Ok(v) => spec_parse_int(s@, signed, min as int, max as int) == Ok::<int, IntErrorKind>(v as int),
            Err(e) => spec_parse_int(s@, signed, min as int, max as int) == Err::<int, IntErrorKind>(e),
        },
{
    let cs = str_chars(s);
    if cs.len() == 0 {
        return Err(IntErrorKind::Empty);
    }
    if (cs[0] == '+' || cs[0] == '-') && cs.len() == 1 {
        return Err(IntErrorKind::InvalidDigit);
    }
    let mut start: usize = 0;
    let mut neg = false;
    if cs[0] == '+' {
        start = 1;
    } else if cs[0] == '-' && signed {
        start = 1;
        neg = true;
    }
    let ghost ds = cs@.skip(start as int);
    assert(start == 1 ==> ds =~= cs@.drop_first());
    assert(start == 0 ==> ds =~= cs@);
    assert(spec_parse_int(s@, signed, min as int, max as int) == spec_scan_decimal(ds, neg, min as int, max as int));
    let mut v: i64 = 0;
    let mut i: usize = start;
    while i < cs.len()
        invariant
            start <= i <= cs.len(),
            ds == cs@.skip(start as int),
            spec_parse_int(s@, signed, min as int, max as int) == spec_scan_decimal(ds, neg, min as int, max as int),
            -0x1_0000_0000 <= min <= 0 <= max <= 0x1_0000_0000,
            spec_scan_decimal(ds.take(i - start), neg, min as int, max as int) == Ok::<int, IntErrorKind>(v as int),
            min <= v <= max,
        decreases cs.len() - i,
    {
        let ghost k = i - start;
        assert(ds.take(k + 1).drop_last() =~= ds.take(k));
        assert(ds.take(k + 1).last() == cs@[i as int]);
        let d = match digit_of(cs[i], 10) {
            Some(d) => d,
            None => {
                proof { lemma_scan_err_sticks(ds, k + 1, neg, min as int, max as int); }
                return Err(IntErrorKind::InvalidDigit);
            },
        };
        let x: i64 = if neg { v * 10 - d as i64 } else { v * 10 + d as i64 };
        if x > max {
            proof { lemma_scan_err_sticks(ds, k + 1, neg, min as int, max as int); }
            return Err(IntErrorKind::PosOverflow);
        }
        if x < min {
            proof { lemma_scan_err_sticks(ds, k + 1, neg, min as int, max as int); }
            return Err(IntErrorKind::NegOverflow);
        }
        v = x;
        i = i + 1;
    }
    assert(ds.take(cs.len() - start) =~= ds);
    Ok(v)
}

proof fn lemma_scan_err_sticks(s: Seq<char>, n: int, neg: bool, min: int, max: int)
    requires
        0 <= n <= s.len(),
        spec_scan_decimal(s.take(n), neg, min, max) is Err,
    ensures
        spec_scan_decimal(s, neg, min, max) == spec_scan_decimal(s.take(n), neg, min, max),
    decreases s.len() - n,
{
    if n < s.len() {
        assert(s.take(n + 1).drop_last() =~= s.take(n));
        lemma_scan_err_sticks(s, n + 1, neg, min, max);
    } else {
        assert(s.take(n) =~= s);
    }
}

} // verus!
