//! Time to live of a volume or a needle: a count and a unit, such as `3m` or `7M`.
use vstd::prelude::*;
use vstd::string::*;
use vstd::utf8::valid_utf8;
use crate::storage::errors::Error;
use crate::text::{parse_uint, parse_uint_bytes, dec_str, dec_string};

verus! {

/// The unit of a time to live.
#[derive(Copy, Clone, Debug, PartialEq, Eq, Structural)]
pub enum Unit {
    Empty,
    Minute,
    Hour,
    Day,
    Week,
    Month,
    Year,
}

/// The number by which a unit is stored (`Empty` is 0, `Year` is 6).
pub open spec fn unit_index(u: Unit) -> u8 {
    match u {
        Unit::Empty => 0,
        Unit::Minute => 1,
        Unit::Hour => 2,
        Unit::Day => 3,
        Unit::Week => 4,
        Unit::Month => 5,
        Unit::Year => 6,
    }
}

/// The unit stored as `u`, if `u` is at most 6.
pub open spec fn unit_from_index(u: u8) -> Option<Unit> {
    if u == 0 {
        Some(Unit::Empty)
    } else if u == 1 {
        Some(Unit::Minute)
    } else if u == 2 {
        Some(Unit::Hour)
    } else if u == 3 {
        Some(Unit::Day)
    } else if u == 4 {
        Some(Unit::Week)
    } else if u == 5 {
        Some(Unit::Month)
    } else if u == 6 {
        Some(Unit::Year)
    } else {
        None
    }
}

/// The unit that the letter `c` names in a time to live: `m`, `h`, `d`, `w`, `M` or `y`.
pub open spec fn unit_from_letter(c: u8) -> Option<Unit> {
    if c == 109 {
        Some(Unit::Minute)
    } else if c == 104 {
        Some(Unit::Hour)
    } else if c == 100 {
        Some(Unit::Day)
    } else if c == 119 {
        Some(Unit::Week)
    } else if c == 77 {
        Some(Unit::Month)
    } else if c == 121 {
        Some(Unit::Year)
    } else {
        None
    }
}

/// The letter of a unit (`Empty` has none).
pub open spec fn unit_letters(u: Unit) -> Seq<char> {
    match u {
        Unit::Minute => seq!['m'],
        Unit::Hour => seq!['h'],
        Unit::Day => seq!['d'],
        Unit::Week => seq!['w'],
        Unit::Month => seq!['M'],
        Unit::Year => seq!['y'],
        Unit::Empty => seq![],
    }
}

/// The length of a time to live in minutes (a month counts 31 days, a year 365).
pub open spec fn ttl_minutes(t: TTL) -> int {
    match t.unit {
        Unit::Empty => 0,
        Unit::Minute => t.count as int,
        Unit::Hour => t.count * 60,
        Unit::Day => t.count * 60 * 24,
        Unit::Week => t.count * 60 * 24 * 7,
        Unit::Month => t.count * 60 * 24 * 31,
        Unit::Year => t.count * 60 * 24 * 365,
    }
}

impl Default for Unit {
    fn default() -> (r: Unit)
        ensures
            r == Unit::Empty,
    {
        Unit::Empty
    }
}

impl Unit {
    /// The unit stored as `u`.
    pub fn from_u8_idx(u: u8) -> (r: Option<Unit>)
        ensures
            r == unit_from_index(u),
    {
        match u {
            0 => Some(Unit::Empty),
            1 => Some(Unit::Minute),
            2 => Some(Unit::Hour),
            3 => Some(Unit::Day),
            4 => Some(Unit::Week),
            5 => Some(Unit::Month),
            6 => Some(Unit::Year),
            _ => None,
        }
    }

    /// The unit that the letter `u` names.
    pub fn new(u: u8) -> (r: Option<Unit>)
        ensures
            r == unit_from_letter(u),
    {
        match u {
            109 => Some(Unit::Minute),
            104 => Some(Unit::Hour),
            100 => Some(Unit::Day),
            119 => Some(Unit::Week),
            77 => Some(Unit::Month),
            121 => Some(Unit::Year),
            _ => None,
        }
    }

    /// The number by which this unit is stored.
    pub fn index(&self) -> (r: u8)
        ensures
            r == unit_index(*self),
    {
        match *self {
            Unit::Empty => 0,
            Unit::Minute => 1,
            Unit::Hour => 2,
            Unit::Day => 3,
            Unit::Week => 4,
            Unit::Month => 5,
            Unit::Year => 6,
        }
    }

    /// The letter of this unit, or the empty string for `Empty`.
    pub fn string(&self) -> (r: String)
        ensures
            r@ == unit_letters(*self),
    {
        proof {
            reveal_strlit("m");
            reveal_strlit("h");
            reveal_strlit("d");
            reveal_strlit("w");
            reveal_strlit("M");
            reveal_strlit("y");
            reveal_strlit("");
        }
        match *self {
            Unit::Minute => String::from_str("m"),
            Unit::Hour => String::from_str("h"),
            Unit::Day => String::from_str("d"),
            Unit::Week => String::from_str("w"),
            Unit::Month => String::from_str("M"),
            Unit::Year => String::from_str("y"),
            Unit::Empty => String::from_str(""),
        }
    }
}

/// A time to live: `count` times `unit`.
#[derive(Copy, Clone, Debug, PartialEq, Eq, Structural)]
pub struct TTL {
    pub count: u8,
    pub unit: Unit,
}

impl Default for TTL {
    fn default() -> (r: TTL)
        ensures
            r == (TTL { count: 0, unit: Unit::Empty }),
    {
        TTL { count: 0, unit: Unit::Empty }
    }
}

/// The bytes of a time to live's text that hold the count, and the byte that names
/// the unit. A text that ends in a digit is all count, in minutes.
pub open spec fn ttl_parts(b: Seq<u8>) -> (Seq<u8>, u8) {
    if 48 <= b.last() <= 57 {
        (b, 109u8)
    } else {
        (b.drop_last(), b.last())
    }
}

/// The text can be read without failing on bad UTF-8: the count part is valid UTF-8.
pub open spec fn ttl_text_readable(b: Seq<u8>) -> bool {
    b.len() > 0 ==> valid_utf8(ttl_parts(b).0)
}

/// The time to live that the bytes `b` spell: a decimal count of at most 255, then
/// an optional unit letter (minutes when there is none).
pub open spec fn parse_ttl(b: Seq<u8>) -> Option<TTL> {
    if b.len() == 0 {
        None
    } else {
        let (c, u) = ttl_parts(b);
        match (parse_uint(c, 10, 255), unit_from_letter(u)) {
            (Some(n), Some(unit)) => Some(TTL { count: n as u8, unit }),
            _ => None,
        }
    }
}

/// The text of a time to live: empty for a zero count, else the count and the unit letter.
pub open spec fn ttl_text(t: TTL) -> Seq<char> {
    if t.count == 0 {
        seq![]
    } else {
        dec_str(t.count as nat) + unit_letters(t.unit)
    }
}

/// The time to live stored in two bytes: the count, then the unit's number.
pub open spec fn ttl_from_bytes(b: Seq<u8>) -> TTL
    recommends
        b.len() >= 2,
        unit_from_index(b[1]) is Some,
{
    TTL { count: b[0], unit: unit_from_index(b[1]).unwrap() }
}

/// The two bytes that the u32 `u` stands for: its low byte and its second byte,
/// each taken modulo 255.
pub open spec fn ttl_u32_bytes(u: u32) -> Seq<u8> {
    seq![(u % 255) as u8, ((u / 256) % 255) as u8]
}

impl TTL {
    /// Reads a time to live such as `3m`, `4h`, `5d`, `6w`, `7M`, `8y`, or `3` (minutes).
    pub fn new(s: &str) -> (r: Result<TTL, Error>)
        requires
            ttl_text_readable(s.spec_bytes()),
        ensures
            match parse_ttl(s.spec_bytes()) {
                Some(t) => r matches Ok(rt) && rt == t,
                None => r matches Err(Error::ParseTTL(m)) && m@ == s@,
            },
    {
        let bytes = s.as_bytes();
        let n = bytes.len();
        if n == 0 {
            return Err(Error::ParseTTL(String::from_str(s)));
        }
        let mut unit = bytes[n - 1];
        let mut end = n - 1;
        if unit >= 48 && unit <= 57 {
            unit = 109;
            end = n;
        }
        let count_bytes = slice_prefix(bytes, end);
        assert(count_bytes@ == ttl_parts(s.spec_bytes()).0) by {
            assert(s.spec_bytes().drop_last() =~= s.spec_bytes().subrange(0, n - 1));
            assert(s.spec_bytes() =~= s.spec_bytes().subrange(0, n as int));
        }
        assert(unit == ttl_parts(s.spec_bytes()).1);
        if let Some(count) = parse_uint_bytes(count_bytes.as_slice(), 10, 255) {
            assert(parse_uint(count_bytes@, 10, 255) == Some(count as int));
            if let Some(unit) = Unit::new(unit) {
                assert(parse_ttl(s.spec_bytes()) == Some(TTL { count: count as u8, unit }));
                return Ok(TTL { count: count as u8, unit });
            }
        }
        Err(Error::ParseTTL(String::from_str(s)))
    }

    /// The text of this time to live: empty when the count is 0.
    pub fn string(&self) -> (r: String)
        ensures
            r@ == ttl_text(*self),
    {
        if self.count == 0 {
            return String::new();
        }
        let mut s = dec_string(self.count as u64);
        let u = self.unit.string();
        s.append(u.as_str());
        s
    }

    /// The length of this time to live in minutes.
    pub fn minutes(&self) -> (r: u32)
        ensures
            r == ttl_minutes(*self),
    {
        match self.unit {
            Unit::Empty => 0,
            Unit::Minute => self.count as u32,
            Unit::Hour => self.count as u32 * 60,
            Unit::Day => self.count as u32 * 60 * 24,
            Unit::Week => self.count as u32 * 60 * 24 * 7,
            Unit::Month => self.count as u32 * 60 * 24 * 31,
            Unit::Year => self.count as u32 * 60 * 24 * 365,
        }
    }

    /// The time to live stored in two bytes: the count, then the unit's number.
    pub fn from_bytes(u: Vec<u8>) -> (r: TTL)
        requires
            u@.len() >= 2,
            unit_from_index(u@[1]) is Some,
        ensures
            r == ttl_from_bytes(u@),
    {
        let unit = Unit::from_u8_idx(u[1]);
        TTL { count: u[0], unit: unit.unwrap() }
    }

    /// The time to live stored in a u32: the count in the low byte and the unit's number
    /// in the next, each read modulo 255.
    pub fn from_u32(u: u32) -> (r: TTL)
        requires
            unit_from_index(ttl_u32_bytes(u)[1]) is Some,
        ensures
            r == ttl_from_bytes(ttl_u32_bytes(u)),
    {
        let mut v: Vec<u8> = Vec::new();
        v.push((u % 255) as u8);
        v.push(((u / 256) % 255) as u8);
        assert(v@ =~= ttl_u32_bytes(u));
        TTL::from_bytes(v)
    }

    /// The two bytes that store this time to live: the count, then the unit's number.
    pub fn bytes(&self) -> (r: Vec<u8>)
        ensures
            r@ == seq![self.count, unit_index(self.unit)],
    {
        let mut v: Vec<u8> = Vec::new();
        v.push(self.count);
        v.push(self.unit.index());
        v
    }

    /// This time to live in a u32: the count in the low byte and the unit's number in the next.
    pub fn to_u32(&self) -> (r: u32)
        ensures
            r == self.count + unit_index(self.unit) * 256,
    {
        self.count as u32 + self.unit.index() as u32 * 256
    }
}

/// The first `end` bytes of `b`, copied.
pub fn slice_prefix(b: &[u8], end: usize) -> (r: Vec<u8>)
    requires
        end <= b@.len(),
    ensures
        r@ == b@.subrange(0, end as int),
{
    let mut v: Vec<u8> = Vec::new();
    let mut i: usize = 0;
    while i < end
        invariant
            i <= end <= b@.len(),
            v@ == b@.subrange(0, i as int),
        decreases end - i,
    {
        v.push(b[i]);
        i = i + 1;
        assert(v@ =~= b@.subrange(0, i as int));
    }
    v
}

/// Whether the count of the time to live `s` can be cut out of it: true when `s` is
/// empty, ends in a digit, or its last byte starts a character (std's slicing of the
/// count panics otherwise).
pub fn ttl_text_is_readable(s: &str) -> (r: bool)
    ensures
        r == (s.spec_bytes().len() == 0 || 48 <= s.spec_bytes().last() <= 57 || vstd::utf8::is_char_boundary(
            s.spec_bytes(),
            s.spec_bytes().len() - 1,
        )),
        r ==> ttl_text_readable(s.spec_bytes()),
{
    let b = s.as_bytes();
    let n = b.len();
    if n == 0 {
        return true;
    }
    proof {
        vstd::utf8::encode_utf8_valid_utf8(s@);
    }
    let last = b[n - 1];
    if 48 <= last && last <= 57 {
        return true;
    }
    let ok = s.is_char_boundary(n - 1);
    proof {
        if ok {
            vstd::utf8::valid_utf8_split(s.spec_bytes(), n - 1);
            assert(s.spec_bytes().drop_last() =~= s.spec_bytes().subrange(0, n - 1));
        }
    }
    ok
}

/// Law: the text of a time to live reads back as that time to live, when its count is
/// not 0 and it has a unit (a count of 0 is written as nothing, and a text with no unit
/// letter reads as minutes).
pub proof fn law_ttl_text_roundtrip(t: TTL)
    requires
        t.count > 0,
        t.unit != Unit::Empty,
    ensures
        parse_ttl(vstd::utf8::encode_utf8(ttl_text(t))) == Some(t),
{
    let d = crate::text::dec_str(t.count as nat);
    let s = ttl_text(t);
    crate::text::lemma_radix_str_ascii(t.count as nat, 10);
    crate::text::lemma_radix_str_value(t.count as nat, 10);
    assert(s == d + unit_letters(t.unit));
    assert(unit_letters(t.unit).len() == 1);
    assert(vstd::utf8::is_ascii_chars(s)) by {
        assert forall|i: int| 0 <= i < s.len() implies '\0' <= #[trigger] s[i] <= '\u{7f}' by {
            if i < d.len() {
                assert(s[i] == d[i]);
            }
        }
    }
    crate::text::lemma_ascii_bytes(s);
    let b = crate::text::chars_as_bytes(s);
    assert(b.drop_last() =~= crate::text::chars_as_bytes(d));
    crate::text::lemma_dec_roundtrip(t.count as nat, 255);
    assert(!(48 <= b.last() <= 57));
}

} // verus!
