//! Numbers as text: decimal and hexadecimal digits, in both directions.
use vstd::prelude::*;

verus! {

/// The ASCII digit that stands for `d` in base 16 (lower-case letters).
pub open spec fn digit_char(d: int) -> char {
    if d < 10 {
        ((d + 48) as u8) as char
    } else {
        ((d - 10 + 97) as u8) as char
    }
}

/// The digits of `n` in base `radix`, most significant first, with no leading zeros
/// (`0` is written as a single digit).
pub open spec fn radix_str(n: nat, radix: nat) -> Seq<char>
    recommends
        2 <= radix <= 16,
    decreases n,
{
    if n < radix || radix < 2 {
        seq![digit_char(n as int)]
    } else {
        proof {
            assert(n / radix < n) by (nonlinear_arith)
                requires
                    n >= radix,
                    radix >= 2,
            ;
        }
        radix_str(n / radix, radix) + seq![digit_char((n % radix) as int)]
    }
}

/// The decimal digits of `n`.
pub open spec fn dec_str(n: nat) -> Seq<char> {
    radix_str(n, 10)
}

/// The lower-case hexadecimal digits of `n`.
pub open spec fn hex_str(n: nat) -> Seq<char> {
    radix_str(n, 16)
}

/// `s` with `'0'` put in front until it has at least `width` characters.
pub open spec fn zero_pad(s: Seq<char>, width: nat) -> Seq<char> {
    if s.len() >= width {
        s
    } else {
        Seq::new((width - s.len()) as nat, |i: int| '0') + s
    }
}

/// The value of the byte `b` as a digit of base `radix`, if it is one
/// (upper- and lower-case letters both count).
pub open spec fn digit_value(b: u8, radix: int) -> Option<int> {
    let v: int = if 48 <= b <= 57 {
        b - 48
    } else if 97 <= b <= 122 {
        b - 97 + 10
    } else if 65 <= b <= 90 {
        b - 65 + 10
    } else {
        36
    };
    if v < radix {
        Some(v)
    } else {
        None
    }
}

/// Every byte of `s` is a digit of base `radix`.
pub open spec fn all_digits(s: Seq<u8>, radix: int) -> bool {
    forall|i: int| 0 <= i < s.len() ==> (#[trigger] digit_value(s[i], radix)) is Some
}

/// The number that the digits `s` spell in base `radix`.
pub open spec fn digits_value(s: Seq<u8>, radix: int) -> int
    decreases s.len(),
{
    if s.len() == 0 {
        0
    } else {
        digits_value(s.drop_last(), radix) * radix + digit_value(s.last(), radix).unwrap()
    }
}

/// `s` without one leading `'+'`, if it has one.
pub open spec fn strip_plus(s: Seq<u8>) -> Seq<u8> {
    if s.len() > 0 && s[0] == 43u8 {
        s.drop_first()
    } else {
        s
    }
}

/// The unsigned integer that std's `from_str_radix` reads from `s`: one optional
/// leading `'+'`, then at least one digit of base `radix`, and a value of at most `max`.
pub open spec fn parse_uint(s: Seq<u8>, radix: int, max: int) -> Option<int> {
    let d = strip_plus(s);
    if d.len() == 0 || !all_digits(d, radix) {
        None
    } else if digits_value(d, radix) > max {
        None
    } else {
        Some(digits_value(d, radix))
    }
}

/// The characters of `s` read as bytes: the bytes of an ASCII string.
pub open spec fn chars_as_bytes(s: Seq<char>) -> Seq<u8> {
    Seq::new(s.len(), |i: int| s[i] as u8)
}

proof fn lemma_digits_value_nonneg(s: Seq<u8>, radix: int)
    requires
        radix >= 2,
        all_digits(s, radix),
    ensures
        digits_value(s, radix) >= 0,
    decreases s.len(),
{
    if s.len() > 0 {
        assert(all_digits(s.drop_last(), radix)) by {
            assert forall|i: int| 0 <= i < s.drop_last().len() implies (#[trigger] digit_value(
                s.drop_last()[i],
                radix,
            )) is Some by {
                assert(s.drop_last()[i] == s[i]);
            }
        }
        lemma_digits_value_nonneg(s.drop_last(), radix);
        assert(digit_value(s[s.len() - 1], radix) is Some);
        assert(digits_value(s.drop_last(), radix) * radix >= 0) by (nonlinear_arith)
            requires
                digits_value(s.drop_last(), radix) >= 0,
                radix >= 2,
        ;
    }
}

/// A longer run of digits never spells a smaller number than its prefix.
proof fn lemma_digits_value_prefix(s: Seq<u8>, radix: int, i: int)
    requires
        radix >= 2,
        all_digits(s, radix),
        0 <= i <= s.len(),
    ensures
        digits_value(s.take(i), radix) <= digits_value(s, radix),
    decreases s.len() - i,
{
    if i < s.len() {
        let t = s.take(i + 1);
        assert(all_digits(t, radix)) by {
            assert forall|k: int| 0 <= k < t.len() implies (#[trigger] digit_value(t[k], radix)) is Some by {
                assert(t[k] == s[k]);
            }
        }
        assert(t.drop_last() =~= s.take(i));
        assert(all_digits(s.take(i), radix)) by {
            assert forall|k: int| 0 <= k < s.take(i).len() implies (#[trigger] digit_value(
                s.take(i)[k],
                radix,
            )) is Some by {
                assert(s.take(i)[k] == s[k]);
            }
        }
        lemma_digits_value_nonneg(s.take(i), radix);
        assert(digit_value(t[t.len() - 1], radix) is Some);
        assert(digits_value(s.take(i), radix) <= digits_value(s.take(i), radix) * radix)
            by (nonlinear_arith)
            requires
                digits_value(s.take(i), radix) >= 0,
                radix >= 2,
        ;
        lemma_digits_value_prefix(s, radix, i + 1);
    } else {
        assert(s.take(i) =~= s);
    }
}

/// Reads an unsigned integer of base `radix` from `s` as std's `from_str_radix` does,
/// for a result type whose largest value is `max`.
pub fn parse_uint_bytes(s: &[u8], radix: u64, max: u64) -> (r: Option<u64>)
    requires
        2 <= radix <= 16,
    ensures
        match r {
            Some(x) => parse_uint(s@, radix as int, max as int) == Some(x as int),
            None => parse_uint(s@, radix as int, max as int) is None,
        },
{
    let mut start: usize = 0;
    if s.len() > 0 && s[0] == 43u8 {
        start = 1;
    }
    let ghost d = strip_plus(s@);
    assert(d =~= s@.subrange(start as int, s@.len() as int));
    if start >= s.len() {
        return None;
    }
    let mut value: u64 = 0;
    let mut i: usize = start;
    while i < s.len()
        invariant
            start <= i <= s.len(),
            d =~= s@.subrange(start as int, s@.len() as int),
            d == strip_plus(s@),
            2 <= radix <= 16,
            all_digits(d.take(i - start), radix as int),
            value as int == digits_value(d.take(i - start), radix as int),
            value <= max,
        decreases s.len() - i,
    {
        let b = s[i];
        let dv: u64 = if 48 <= b && b <= 57 {
            (b - 48) as u64
        } else if 97 <= b && b <= 122 {
            (b - 97 + 10) as u64
        } else if 65 <= b && b <= 90 {
            (b - 65 + 10) as u64
        } else {
            36
        };
        let ghost k = i - start;
        assert(d[k] == b);
        if dv >= radix {
            assert(digit_value(d[k], radix as int) is None);
            assert(!all_digits(d, radix as int));
            assert(parse_uint(s@, radix as int, max as int) is None);
            return None;
        }
        assert(d.take(k + 1).drop_last() =~= d.take(k));
        assert(d.take(k + 1).last() == b);
        assert(digit_value(b, radix as int) == Some(dv as int));
        assert(digits_value(d.take(k + 1), radix as int) == value * radix + dv);
        assert(all_digits(d.take(k + 1), radix as int)) by {
            assert forall|j: int| 0 <= j < d.take(k + 1).len() implies (#[trigger] digit_value(
                d.take(k + 1)[j],
                radix as int,
            )) is Some by {
                if j < k {
                    assert(d.take(k + 1)[j] == d.take(k)[j]);
                }
            }
        }
        if dv > max {
            proof {
                if all_digits(d, radix as int) {
                    lemma_digits_value_prefix(d, radix as int, k + 1);
                }
                assert(value * radix >= 0) by (nonlinear_arith)
                    requires
                        radix >= 2,
                ;
                assert(parse_uint(s@, radix as int, max as int) is None);
            }
            return None;
        }
        let q = (max - dv) / radix;
        if value > q {
            proof {
                assert(value * radix + dv > max) by (nonlinear_arith)
                    requires
                        value > q,
                        q as int == (max - dv) as int / radix as int,
                        radix >= 2,
                        dv <= max,
                ;
                if all_digits(d, radix as int) {
                    lemma_digits_value_prefix(d, radix as int, k + 1);
                    assert(digits_value(d, radix as int) > max);
                }
                assert(parse_uint(s@, radix as int, max as int) is None);
            }
            return None;
        }
        proof {
            assert(value * radix + dv <= max) by (nonlinear_arith)
                requires
                    value <= q,
                    q as int == (max - dv) as int / radix as int,
                    radix >= 2,
                    dv <= max,
            ;
        }
        value = value * radix + dv;
        i = i + 1;
    }
    assert(d.take(i - start) =~= d);
    proof {
        lemma_digits_value_nonneg(d, radix as int);
    }
    Some(value)
}

/// The one-character string of the digit `d` (`0`-`9`, then `a`-`f`).
fn digit_str(d: u64) -> (r: &'static str)
    requires
        d < 16,
    ensures
        r@ == seq![digit_char(d as int)],
{
    proof {
        reveal_strlit("0");
        reveal_strlit("1");
        reveal_strlit("2");
        reveal_strlit("3");
        reveal_strlit("4");
        reveal_strlit("5");
        reveal_strlit("6");
        reveal_strlit("7");
        reveal_strlit("8");
        reveal_strlit("9");
        reveal_strlit("a");
        reveal_strlit("b");
        reveal_strlit("c");
        reveal_strlit("d");
        reveal_strlit("e");
        reveal_strlit("f");
    }
    match d {
        0 => "0",
        1 => "1",
        2 => "2",
        3 => "3",
        4 => "4",
        5 => "5",
        6 => "6",
        7 => "7",
        8 => "8",
        9 => "9",
        10 => "a",
        11 => "b",
        12 => "c",
        13 => "d",
        14 => "e",
        _ => "f",
    }
}

/// Writes `n` in base `radix` (lower-case digits, no leading zeros).
pub fn radix_string(n: u64, radix: u64) -> (r: String)
    requires
        2 <= radix <= 16,
    ensures
        r@ == radix_str(n as nat, radix as nat),
    decreases n,
{
    if n < radix {
        String::from_str(digit_str(n))
    } else {
        proof {
            assert(n / radix < n) by (nonlinear_arith)
                requires
                    n >= radix,
                    radix >= 2,
            ;
        }
        let mut r = radix_string(n / radix, radix);
        r.append(digit_str(n % radix));
        r
    }
}

/// Writes `n` in decimal.
pub fn dec_string(n: u64) -> (r: String)
    ensures
        r@ == dec_str(n as nat),
{
    radix_string(n, 10)
}

/// Writes `n` in lower-case hexadecimal.
pub fn hex_string(n: u64) -> (r: String)
    ensures
        r@ == hex_str(n as nat),
{
    radix_string(n, 16)
}

/// Puts `'0'` in front of `s` until it has at least `width` characters.
pub fn zero_padded(s: String, width: usize) -> (r: String)
    ensures
        r@ == zero_pad(s@, width as nat),
{
    let n = s.unicode_len();
    if n >= width {
        return s;
    }
    let mut r = String::new();
    let mut i: usize = n;
    proof {
        reveal_strlit("0");
    }
    while i < width
        invariant
            n <= i <= width,
            n == s@.len(),
            r@ =~= Seq::new((i - n) as nat, |k: int| '0'),
        decreases width - i,
    {
        proof {
            reveal_strlit("0");
        }
        r.append("0");
        i = i + 1;
    }
    r.append(s.as_str());
    r
}

/// `i` in decimal, with a `-` in front when it is negative.
pub open spec fn int_str(i: int) -> Seq<char> {
    if i < 0 {
        seq!['-'] + dec_str((-i) as nat)
    } else {
        dec_str(i as nat)
    }
}

/// Writes `x` in decimal, with a `-` in front when it is negative.
pub fn i64_string(x: i64) -> (r: String)
    ensures
        r@ == int_str(x as int),
{
    if x < 0 {
        let m: u64 = (-(x as i128)) as u64;
        let mut r = String::from_str("-");
        proof {
            reveal_strlit("-");
        }
        let d = dec_string(m);
        r.append(d.as_str());
        r
    } else {
        dec_string(x as u64)
    }
}

/// Whether the texts `a` and `b` are the same.
pub fn same_text(a: &str, b: &str) -> (r: bool)
    ensures
        r == (a@ == b@),
{
    let n = a.unicode_len();
    if n != b.unicode_len() {
        return false;
    }
    let mut i: usize = 0;
    while i < n
        invariant
            n == a@.len(),
            n == b@.len(),
            i <= n,
            forall|k: int| 0 <= k < i ==> a@[k] == b@[k],
        decreases n - i,
    {
        if a.get_char(i) != b.get_char(i) {
            return false;
        }
        i = i + 1;
    }
    assert(a@ =~= b@);
    true
}

/// The signed integer that std's `i64::from_str` reads from `s`: an optional sign (`+`
/// or `-`), then at least one decimal digit, and a value within the range of i64.
pub open spec fn parse_i64_spec(s: Seq<u8>) -> Option<int> {
    if s.len() > 0 && s[0] == 45u8 {
        let d = s.drop_first();
        if d.len() > 0 && d[0] == 43u8 {
            None
        } else {
            match parse_uint(d, 10, 0x8000_0000_0000_0000) {
                Some(v) => Some(-v),
                None => None,
            }
        }
    } else {
        parse_uint(s, 10, 0x7fff_ffff_ffff_ffff)
    }
}

/// Reads a signed decimal integer from `s` as std's `i64::from_str` does.
pub fn parse_i64_bytes(s: &[u8]) -> (r: Option<i64>)
    ensures
        match r {
            Some(x) => parse_i64_spec(s@) == Some(x as int),
            None => parse_i64_spec(s@) is None,
        },
{
    if s.len() > 0 && s[0] == 45u8 {
        let mut rest: Vec<u8> = Vec::new();
        let mut i: usize = 1;
        while i < s.len()
            invariant
                1 <= i <= s@.len(),
                rest@ == s@.subrange(1, i as int),
            decreases s@.len() - i,
        {
            rest.push(s[i]);
            assert(s@.subrange(1, i + 1) =~= s@.subrange(1, i as int).push(s@[i as int]));
            i = i + 1;
        }
        assert(rest@ =~= s@.drop_first());
        if rest.len() > 0 && rest[0] == 43u8 {
            return None;
        }
        match parse_uint_bytes(rest.as_slice(), 10, 0x8000_0000_0000_0000) {
            Some(v) => {
                if v == 0x8000_0000_0000_0000 {
                    Some(i64::MIN)
                } else {
                    Some(-(v as i64))
                }
            },
            None => None,
        }
    } else {
        match parse_uint_bytes(s, 10, 0x7fff_ffff_ffff_ffff) {
            Some(v) => Some(v as i64),
            None => None,
        }
    }
}

/// The byte of a digit character stands for that digit.
proof fn lemma_digit_char_value(k: int, radix: int)
    requires
        2 <= radix <= 16,
        0 <= k < radix,
    ensures
        digit_value(digit_char(k) as u8, radix) == Some(k),
        digit_char(k) as u8 != 43u8,
{
    if k < 10 {
        assert(((k + 48) as u8) as char as u8 == (k + 48) as u8);
    } else {
        assert(((k - 10 + 97) as u8) as char as u8 == (k - 10 + 97) as u8);
    }
}

/// Writing `n` in base `radix` and reading it back gives `n`: the text is all digits,
/// does not start with `+`, and spells `n`.
pub proof fn lemma_radix_str_value(n: nat, radix: nat)
    requires
        2 <= radix <= 16,
    ensures
        radix_str(n, radix).len() >= 1,
        all_digits(chars_as_bytes(radix_str(n, radix)), radix as int),
        digits_value(chars_as_bytes(radix_str(n, radix)), radix as int) == n,
        chars_as_bytes(radix_str(n, radix))[0] != 43u8,
    decreases n,
{
    let s = radix_str(n, radix);
    let b = chars_as_bytes(s);
    if n < radix {
        lemma_digit_char_value(n as int, radix as int);
        assert(b.drop_last() =~= Seq::<u8>::empty());
        assert(b.last() == digit_char(n as int) as u8);
        assert(digits_value(b, radix as int) == digits_value(b.drop_last(), radix as int) * radix + n);
        assert(digits_value(b.drop_last(), radix as int) == 0);
    } else {
        assert(n / radix < n) by (nonlinear_arith)
            requires
                n >= radix,
                radix >= 2,
        ;
        lemma_radix_str_value(n / radix, radix);
        let p = radix_str(n / radix, radix);
        let k = (n % radix) as int;
        lemma_digit_char_value(k, radix as int);
        assert(s == p + seq![digit_char(k)]);
        assert(b.drop_last() =~= chars_as_bytes(p));
        assert(b.last() == digit_char(k) as u8);
        assert forall|i: int| 0 <= i < b.len() implies (#[trigger] digit_value(b[i], radix as int)) is Some by {
            if i < b.len() - 1 {
                assert(b[i] == chars_as_bytes(p)[i]);
            }
        }
        assert(b[0] == chars_as_bytes(p)[0]);
        assert((n / radix) * radix + n % radix == n) by (nonlinear_arith)
            requires
                radix >= 2,
        ;
        assert(digits_value(b, radix as int) == digits_value(b.drop_last(), radix as int) * radix + k);
    }
}

/// Writing `n` in decimal and reading it back, for a result type whose largest value
/// is at least `n`, gives `n`.
pub proof fn lemma_dec_roundtrip(n: nat, max: int)
    requires
        n <= max,
    ensures
        parse_uint(chars_as_bytes(dec_str(n)), 10, max) == Some(n as int),
{
    lemma_radix_str_value(n, 10);
}

/// The digits of `n` in base `radix` are ASCII characters.
pub proof fn lemma_radix_str_ascii(n: nat, radix: nat)
    requires
        2 <= radix <= 16,
    ensures
        vstd::utf8::is_ascii_chars(radix_str(n, radix)),
    decreases n,
{
    let s = radix_str(n, radix);
    if n < radix {
        assert(s[0] == digit_char(n as int));
    } else {
        assert(n / radix < n) by (nonlinear_arith)
            requires
                n >= radix,
                radix >= 2,
        ;
        lemma_radix_str_ascii(n / radix, radix);
        let p = radix_str(n / radix, radix);
        assert forall|i: int| 0 <= i < s.len() implies '\0' <= #[trigger] s[i] <= '\u{7f}' by {
            if i < p.len() {
                assert(s[i] == p[i]);
            }
        }
    }
}

/// The UTF-8 bytes of ASCII characters are the characters read as bytes.
pub proof fn lemma_ascii_bytes(chars: Seq<char>)
    requires
        vstd::utf8::is_ascii_chars(chars),
    ensures
        vstd::utf8::encode_utf8(chars) == chars_as_bytes(chars),
{
    vstd::utf8::is_ascii_chars_encode_utf8(chars);
    assert(vstd::utf8::encode_utf8(chars) =~= chars_as_bytes(chars));
}

/// 16 to the power `k`.
pub open spec fn pow16(k: nat) -> nat
    decreases k,
{
    if k == 0 {
        1
    } else {
        16 * pow16((k - 1) as nat)
    }
}

/// A number below 16^k has at most `k` hexadecimal digits.
pub proof fn lemma_hex_len(n: nat, k: nat)
    requires
        k >= 1,
        n < pow16(k),
    ensures
        hex_str(n).len() <= k,
    decreases n,
{
    if n >= 16 {
        if k == 1 {
            assert(pow16(1) == 16 * pow16(0));
        } else {
            assert(pow16(k) == 16 * pow16((k - 1) as nat));
            assert(n / 16 < pow16((k - 1) as nat));
            lemma_hex_len(n / 16, (k - 1) as nat);
            assert(hex_str(n) == hex_str(n / 16) + seq![digit_char((n % 16) as int)]);
        }
    }
}

/// The number of `z` zero digits followed by the digits `d` is the number of `d`.
pub proof fn lemma_leading_zeros(z: Seq<u8>, d: Seq<u8>, radix: int)
    requires
        2 <= radix <= 16,
        forall|i: int| 0 <= i < z.len() ==> z[i] == 48u8,
        all_digits(d, radix),
    ensures
        all_digits(z + d, radix),
        digits_value(z + d, radix) == digits_value(d, radix),
    decreases d.len(),
{
    assert forall|i: int| 0 <= i < (z + d).len() implies (#[trigger] digit_value((z + d)[i], radix)) is Some by {
        if i < z.len() {
            assert((z + d)[i] == 48u8);
        } else {
            assert((z + d)[i] == d[i - z.len()]);
        }
    }
    if d.len() == 0 {
        assert(z + d =~= z);
        lemma_zeros_value(z, radix);
    } else {
        assert(all_digits(d.drop_last(), radix)) by {
            assert forall|i: int| 0 <= i < d.drop_last().len() implies (#[trigger] digit_value(d.drop_last()[i], radix)) is Some by {
                assert(d.drop_last()[i] == d[i]);
            }
        }
        lemma_leading_zeros(z, d.drop_last(), radix);
        assert((z + d).drop_last() =~= z + d.drop_last());
        assert((z + d).last() == d.last());
    }
}

proof fn lemma_zeros_value(z: Seq<u8>, radix: int)
    requires
        2 <= radix <= 16,
        forall|i: int| 0 <= i < z.len() ==> z[i] == 48u8,
    ensures
        digits_value(z, radix) == 0,
    decreases z.len(),
{
    if z.len() > 0 {
        lemma_zeros_value(z.drop_last(), radix);
        assert(z.last() == 48u8);
    }
}

} // verus!
