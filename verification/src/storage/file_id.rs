//! The text of a file id: volume, key and cookie.
use vstd::prelude::*;
use crate::storage::VolumeId;
use crate::text::{dec_str, dec_string, hex_str, hex_string, zero_pad, zero_padded, radix_str, chars_as_bytes, digit_value,
    all_digits, digits_value, parse_uint, pow16, lemma_hex_len, lemma_leading_zeros, lemma_radix_str_value, lemma_radix_str_ascii,
    lemma_ascii_bytes};
use crate::storage::api::{char_positions, url_parts, url_path_ok, slash_count, last_index};
use crate::storage::needle::{NeedleView, parse_path_spec, PathOutcome, key_hash_cuttable, fid_key_part, fid_delta_part,
    first_index_of, parse_key_hash_spec, key_hash_len_ok};

verus! {

/// A file id: the volume that holds the file, the needle's key, and its cookie.
pub struct FileID {
    pub volume_id: VolumeId,
    pub key: u64,
    pub hash_code: u32,
}

/// The text of a file id: the volume in decimal, a comma, the key in hexadecimal, and
/// the cookie in 8 hexadecimal digits.
pub open spec fn file_id_text(volume_id: u32, key: u64, hash_code: u32) -> Seq<char> {
    dec_str(volume_id as nat) + seq![','] + hex_str(key as nat) + zero_pad(hex_str(hash_code as nat), 8)
}

impl FileID {
    /// The text of this file id, such as `3,01637037d6`.
    pub fn string(&self) -> (r: String)
        ensures
            r@ == file_id_text(self.volume_id, self.key, self.hash_code),
    {
        let mut s = dec_string(self.volume_id as u64);
        proof {
            reveal_strlit(",");
        }
        s.append(",");
        let k = hex_string(self.key);
        s.append(k.as_str());
        let c = zero_padded(hex_string(self.hash_code as u64), 8);
        s.append(c.as_str());
        s
    }
}

/// The key-and-cookie text of a file id: the key in hexadecimal, then the cookie in 8
/// hexadecimal digits.
pub open spec fn key_hash_text(key: u64, hash: u32) -> Seq<char> {
    hex_str(key as nat) + zero_pad(hex_str(hash as nat), 8)
}

/// Every character of `s` is a digit of base 16 when read as a byte.
pub open spec fn digit_chars(s: Seq<char>) -> bool {
    forall|i: int| 0 <= i < s.len() ==> (#[trigger] digit_value(s[i] as u8, 16)) is Some
}

/// A character that is a digit is none of `/`, `,`, `.` and `_`.
proof fn lemma_digit_not_sep(c: char)
    requires
        digit_value(c as u8, 16) is Some,
    ensures
        c != '/' && c != ',' && c != '.' && c != '_',
{
}

/// A text with no character `c` has no position of `c`.
proof fn lemma_positions_absent(s: Seq<char>, c: char)
    requires
        forall|i: int| 0 <= i < s.len() ==> s[i] != c,
    ensures
        char_positions(s, c) == Seq::<int>::empty(),
    decreases s.len(),
{
    if s.len() > 0 {
        lemma_positions_absent(s.drop_last(), c);
    }
}

/// In `a`, then `c`, then `b`, with no `c` in `a` or `b`, the only position of `c` is
/// right after `a`.
proof fn lemma_positions_single(a: Seq<char>, b: Seq<char>, c: char)
    requires
        forall|i: int| 0 <= i < a.len() ==> a[i] != c,
        forall|i: int| 0 <= i < b.len() ==> b[i] != c,
    ensures
        char_positions(a.push(c) + b, c) == seq![a.len() as int],
    decreases b.len(),
{
    if b.len() == 0 {
        assert(a.push(c) + b =~= a.push(c));
        assert(a.push(c).drop_last() =~= a);
        lemma_positions_absent(a, c);
    } else {
        lemma_positions_single(a, b.drop_last(), c);
        assert((a.push(c) + b).drop_last() =~= a.push(c) + b.drop_last());
    }
}

/// The digits of a number are digit characters, and so are the characters of a
/// zero-padded text of digits.
proof fn lemma_digit_chars(n: nat, radix: nat, width: nat)
    requires
        radix == 10 || radix == 16,
    ensures
        digit_chars(radix_str(n, radix)),
        digit_chars(zero_pad(radix_str(n, radix), width)),
{
    lemma_radix_str_value(n, radix);
    let s = radix_str(n, radix);
    assert forall|i: int| 0 <= i < s.len() implies (#[trigger] digit_value(s[i] as u8, 16)) is Some by {
        assert(chars_as_bytes(s)[i] == s[i] as u8);
        assert(digit_value(chars_as_bytes(s)[i], radix as int) is Some);
    }
    let z = zero_pad(s, width);
    assert forall|i: int| 0 <= i < z.len() implies (#[trigger] digit_value(z[i] as u8, 16)) is Some by {
        if s.len() < width {
            if i < width - s.len() {
                assert(z[i] == '0');
            } else {
                assert(z[i] == s[i - (width - s.len())]);
            }
        }
    }
}

/// The cookie text, zero-padded to 8 digits, reads back as the cookie.
proof fn lemma_cookie_text(hash: u32)
    ensures
        zero_pad(hex_str(hash as nat), 8).len() == 8,
        vstd::utf8::is_ascii_chars(zero_pad(hex_str(hash as nat), 8)),
        parse_uint(chars_as_bytes(zero_pad(hex_str(hash as nat), 8)), 16, 0xffff_ffff) == Some(hash as int),
{
    let h = hex_str(hash as nat);
    assert(pow16(8) == 0x1_0000_0000) by {
        reveal_with_fuel(pow16, 9);
    }
    lemma_hex_len(hash as nat, 8);
    lemma_radix_str_value(hash as nat, 16);
    lemma_radix_str_ascii(hash as nat, 16);
    let z = zero_pad(h, 8);
    let zeros = Seq::new((8 - h.len()) as nat, |i: int| '0');
    assert(z == zeros + h);
    assert(chars_as_bytes(z) =~= chars_as_bytes(zeros) + chars_as_bytes(h));
    lemma_leading_zeros(chars_as_bytes(zeros), chars_as_bytes(h), 16);
    assert(chars_as_bytes(z)[0] != 43u8) by {
        if zeros.len() > 0 {
            assert(chars_as_bytes(z)[0] == '0' as u8);
        } else {
            assert(chars_as_bytes(z)[0] == chars_as_bytes(h)[0]);
        }
    }
    assert(vstd::utf8::is_ascii_chars(z)) by {
        assert forall|i: int| 0 <= i < z.len() implies '\0' <= #[trigger] z[i] <= '\u{7f}' by {
            if i >= zeros.len() {
                assert(z[i] == h[i - zeros.len()]);
            }
        }
    }
}

/// Law: the volume server reads back what the directory server hands out. The path
/// `/` and a file id's text names the file id's volume and its key-and-cookie text,
/// can be cut without failing, and that text reads as the file id's key and cookie.
pub proof fn law_file_id_read_back(vid: u32, key: u64, hash: u32, v: NeedleView)
    ensures
        url_path_ok(seq!['/'] + file_id_text(vid, key, hash)),
        url_parts(seq!['/'] + file_id_text(vid, key, hash)) == (dec_str(vid as nat), key_hash_text(key, hash), Seq::<char>::empty(), Seq::<char>::empty(), false),
        key_hash_cuttable(fid_key_part(vstd::utf8::encode_utf8(key_hash_text(key, hash)))),
        parse_path_spec(v, vstd::utf8::encode_utf8(key_hash_text(key, hash))) == (NeedleView { id: key, cookie: hash, ..v }, PathOutcome::Parsed),
{
    let d = dec_str(vid as nat);
    let kh = key_hash_text(key, hash);
    let hk = hex_str(key as nat);
    let hc = zero_pad(hex_str(hash as nat), 8);
    let path = seq!['/'] + file_id_text(vid, key, hash);
    lemma_digit_chars(vid as nat, 10, 0);
    lemma_digit_chars(key as nat, 16, 0);
    lemma_digit_chars(hash as nat, 16, 8);
    assert(digit_chars(kh)) by {
        assert forall|i: int| 0 <= i < kh.len() implies (#[trigger] digit_value(kh[i] as u8, 16)) is Some by {
            if i < hk.len() {
                assert(kh[i] == hk[i]);
            } else {
                assert(kh[i] == hc[i - hk.len()]);
            }
        }
    }
    assert forall|i: int| 0 <= i < d.len() implies d[i] != '/' && d[i] != ',' && d[i] != '.' by {
        lemma_digit_not_sep(d[i]);
    }
    assert forall|i: int| 0 <= i < kh.len() implies kh[i] != '/' && kh[i] != ',' && kh[i] != '.' && kh[i] != '_' by {
        lemma_digit_not_sep(kh[i]);
    }
    // the path is `/`, the volume, `,`, and the key-and-cookie text
    let a = seq!['/'] + d;
    assert(path =~= a.push(',') + kh);
    // one slash (at the start), no dot, one comma (after the volume)
    let rest = d.push(',') + kh;
    assert(path =~= Seq::<char>::empty().push('/') + rest);
    assert forall|i: int| 0 <= i < rest.len() implies rest[i] != '/' by {
        if i < d.len() {
            assert(rest[i] == d[i]);
        } else if i > d.len() {
            assert(rest[i] == kh[i - d.len() - 1]);
        }
    }
    lemma_positions_single(Seq::<char>::empty(), rest, '/');
    assert(slash_count(path) == 2);
    assert forall|i: int| 0 <= i < path.len() implies path[i] != '.' by {
        if 1 <= i < 1 + d.len() {
            assert(path[i] == d[i - 1]);
        } else if i > 1 + d.len() {
            assert(path[i] == kh[i - 2 - d.len()]);
        }
    }
    lemma_positions_absent(path, '.');
    assert forall|i: int| 0 <= i < a.len() implies a[i] != ',' by {
        if i >= 1 {
            assert(a[i] == d[i - 1]);
        }
    }
    lemma_positions_single(a, kh, ',');
    assert(last_index(path, ',') == Some(a.len() as int));
    assert(last_index(path, '.') is None);
    assert(path.subrange(1, a.len() as int) =~= d);
    assert(path.subrange((a.len() + 1) as int, path.len() as int) =~= kh);
    lemma_radix_str_value(vid as nat, 10);
    assert(path[0] == '/');
    // the key-and-cookie text
    lemma_radix_str_ascii(key as nat, 16);
    lemma_cookie_text(hash);
    assert(vstd::utf8::is_ascii_chars(kh)) by {
        assert forall|i: int| 0 <= i < kh.len() implies '\0' <= #[trigger] kh[i] <= '\u{7f}' by {
            if i < hk.len() {
                assert(kh[i] == hk[i]);
            } else {
                assert(kh[i] == hc[i - hk.len()]);
            }
        }
    }
    lemma_ascii_bytes(kh);
    let b = chars_as_bytes(kh);
    assert(forall|i: int| 0 <= i < b.len() ==> b[i] != 95u8) by {
        assert forall|i: int| 0 <= i < b.len() implies b[i] != 95u8 by {
            assert(b[i] == kh[i] as u8);
        }
    }
    lemma_no_underscore(b);
    assert(fid_key_part(b) == b);
    assert(fid_delta_part(b) == Seq::<u8>::empty());
    assert(pow16(16) == 0x1_0000_0000_0000_0000) by {
        reveal_with_fuel(pow16, 17);
    }
    lemma_hex_len(key as nat, 16);
    lemma_radix_str_value(key as nat, 16);
    assert(b.len() == hk.len() + 8);
    assert(key_hash_len_ok(b));
    assert(b.take(b.len() - 8) =~= chars_as_bytes(hk));
    assert(b.skip(b.len() - 8) =~= chars_as_bytes(hc));
    assert(parse_uint(chars_as_bytes(hk), 16, 0xffff_ffff_ffff_ffff) == Some(key as int));
    assert(parse_key_hash_spec(b) == Some((key, hash)));
    assert(!(128 <= b[b.len() - 8] < 192)) by {
        assert(b[b.len() - 8] == kh[b.len() - 8] as u8);
    }
}

/// A text with no `_` has no first `_`.
proof fn lemma_no_underscore(b: Seq<u8>)
    requires
        forall|i: int| 0 <= i < b.len() ==> b[i] != 95u8,
    ensures
        first_index_of(b, 95u8) is None,
    decreases b.len(),
{
    if b.len() > 0 {
        assert forall|i: int| 0 <= i < b.drop_first().len() implies b.drop_first()[i] != 95u8 by {
            assert(b.drop_first()[i] == b[i + 1]);
        }
        lemma_no_underscore(b.drop_first());
    }
}

} // verus!
