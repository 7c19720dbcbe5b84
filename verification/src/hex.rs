//! Hexadecimal text handling for 32-byte addresses.
//!
//! An address field is written as lowercase hexadecimal, optionally prefixed
//! by the exact two characters `0x`.  Parsing strips that prefix, then
//! decodes the remaining digit pairs into the front of a zeroed 32-byte
//! buffer; it fails on an odd number of digits, on any character outside
//! `0-9a-f`, and on more than 64 digits.  Formatting produces exactly two
//! lowercase digits per byte.

use vstd::prelude::*;
use vstd::slice::slice_index_get;
use vstd::slice::slice_subrange;
use vstd::string::StringExecFns;
use vstd::string::StringSliceAdditionalSpecFns;

verus! {

/// Whether a byte is the ASCII code of a lowercase hexadecimal digit.
pub open spec fn is_hex_digit(b: u8) -> bool {
    (48 <= b && b <= 57) || (97 <= b && b <= 102)
}

/// The numeric value of a lowercase hexadecimal digit byte.
pub open spec fn hex_val(b: u8) -> u8 {
    if 48 <= b && b <= 57 {
        (b - 48) as u8
    } else {
        (b - 87) as u8
    }
}

/// The byte written as the digit pair `hi lo`, high nibble first.
pub open spec fn hex_byte(hi: u8, lo: u8) -> u8 {
    (hex_val(hi) * 16 + hex_val(lo)) as u8
}

/// The 32-byte buffer left by decoding the digit pairs of `s` into the front
/// of a zeroed buffer: pair `i` becomes byte `i`, bytes past the last pair
/// stay zero.
pub open spec fn hex_decode_padded(s: Seq<u8>) -> Seq<u8> {
    Seq::new(
        32,
        |i: int|
            if i < s.len() / 2 {
                hex_byte(s[2 * i], s[2 * i + 1])
            } else {
                0u8
            },
    )
}

/// `b` with a leading `0x` (bytes 48, 120) removed, if it has one.
pub open spec fn strip_0x(b: Seq<u8>) -> Seq<u8> {
    if b.len() >= 2 && b[0] == 48 && b[1] == 120 {
        b.subrange(2, b.len() as int)
    } else {
        b
    }
}

/// Whether a character is a lowercase hexadecimal digit.
pub open spec fn is_hex_digit_char(c: char) -> bool {
    (48 <= c as u32 && c as u32 <= 57) || (97 <= c as u32 && c as u32 <= 102)
}

/// `s` with a leading `0x` removed, if it has one.  Only this exact
/// two-character prefix is recognized.
pub open spec fn strip_hex_prefix(s: Seq<char>) -> Seq<char> {
    if s.len() >= 2 && s[0] == '0' && s[1] == 'x' {
        s.subrange(2, s.len() as int)
    } else {
        s
    }
}

/// The characters of `cs`, each narrowed to a byte.  Faithful exactly on
/// ASCII characters, which is the only use made of it.
pub open spec fn chars_to_bytes(cs: Seq<char>) -> Seq<u8> {
    Seq::new(cs.len(), |i: int| cs[i] as u8)
}

/// Whether `s` parses as an address field: after stripping an optional `0x`
/// there is an even number of characters, at most 64, all lowercase
/// hexadecimal digits.
pub open spec fn valid_hex_addr(s: Seq<char>) -> bool {
    let t = strip_hex_prefix(s);
    &&& t.len() % 2 == 0
    &&& t.len() <= 64
    &&& forall|i: int| 0 <= i < t.len() ==> is_hex_digit_char(#[trigger] t[i])
}

/// The 32 address bytes that `s` parses to, when it is a valid address
/// field: the stripped digit pairs, zero-padded at the back.
pub open spec fn decoded_addr(s: Seq<char>) -> Seq<u8> {
    hex_decode_padded(chars_to_bytes(strip_hex_prefix(s)))
}

/// Relies on binascii::hex2bin: with an even number of at most 64 valid
/// digit bytes, it decodes each digit pair, high nibble first, into the
/// front of the 32-byte buffer and leaves the remaining bytes untouched
/// (zero, here).
#[verifier::external_body]
fn hex2bin32(input: &[u8]) -> (r: [u8; 32])
    requires
        input@.len() % 2 == 0,
        input@.len() <= 64,
        forall|i: int| 0 <= i < input@.len() ==> is_hex_digit(#[trigger] input@[i]),
    ensures
        r@ == hex_decode_padded(input@),
{
    let mut buff = [0u8; 32];
    let _ = binascii::hex2bin(input, &mut buff);
    buff
}

/// Drops a leading `0x` from the text and hands back the rest as bytes.
pub fn drop_hex_prefix(s: &str) -> (r: &[u8])
    ensures
        r@ == strip_0x(s.spec_bytes()),
{
    let bytes = s.as_bytes();
    if bytes.len() >= 2 && *slice_index_get(bytes, 0) == 48 && *slice_index_get(bytes, 1) == 120 {
        slice_subrange(bytes, 2, bytes.len())
    } else {
        bytes
    }
}

/// A character whose code point is below 128 is an ASCII character.
proof fn char_ascii_bound(c: char)
    requires
        (c as u32) < 128,
    ensures
        '\0' <= c <= '\u{7f}',
{
}

/// A valid address field is made of ASCII characters only.
proof fn lemma_valid_is_ascii(cs: Seq<char>)
    requires
        valid_hex_addr(cs),
    ensures
        vstd::utf8::is_ascii_chars(cs),
{
    let t = strip_hex_prefix(cs);
    assert forall|i: int| 0 <= i < cs.len() implies '\0' <= #[trigger] cs[i] <= '\u{7f}' by {
        if cs.len() >= 2 && cs[0] == '0' && cs[1] == 'x' {
            if i >= 2 {
                assert(cs[i] == t[i - 2]);
                assert(is_hex_digit_char(t[i - 2]));
                char_ascii_bound(cs[i]);
            } else {
                assert(cs[i] == '0' || cs[i] == 'x');
                char_ascii_bound(cs[i]);
            }
        } else {
            assert(cs[i] == t[i]);
            assert(is_hex_digit_char(t[i]));
            char_ascii_bound(cs[i]);
        }
    }
}

/// On ASCII text, stripping the `0x` prefix commutes with narrowing the
/// characters to bytes.
proof fn lemma_strip_commutes(cs: Seq<char>)
    requires
        vstd::utf8::is_ascii_chars(cs),
    ensures
        strip_0x(chars_to_bytes(cs)) == chars_to_bytes(strip_hex_prefix(cs)),
{
    let b = chars_to_bytes(cs);
    if b.len() >= 2 && b[0] == 48 && b[1] == 120 {
        vstd::utf8::char_u32_cast(cs[0], cs[0] as u32);
        vstd::utf8::char_u32_cast('0', '0' as u32);
        vstd::utf8::char_u32_cast(cs[1], cs[1] as u32);
        vstd::utf8::char_u32_cast('x', 'x' as u32);
        assert(cs[0] as u32 == 48 && cs[1] as u32 == 120);
        assert(cs[0] == '0' && cs[1] == 'x');
        assert(strip_0x(b) =~= chars_to_bytes(strip_hex_prefix(cs)));
    } else {
        assert(!(cs.len() >= 2 && cs[0] == '0' && cs[1] == 'x'));
        assert(strip_0x(b) =~= chars_to_bytes(strip_hex_prefix(cs)));
    }
}

/// Parses one address field: strips an optional `0x`, checks the remainder
/// is an even count of at most 64 lowercase hexadecimal digits, and decodes
/// it into a zero-padded 32-byte address.
pub fn parse_addr(s: &str) -> (r: Option<[u8; 32]>)
    ensures
        r is Some <==> valid_hex_addr(s@),
        r matches Some(a) ==> a@ == decoded_addr(s@),
{
    if !s.is_ascii() {
        proof {
            if valid_hex_addr(s@) {
                lemma_valid_is_ascii(s@);
            }
        }
        return None;
    }
    proof {
        vstd::string::is_ascii_spec_bytes(s);
        assert(s.spec_bytes() =~= chars_to_bytes(s@));
        lemma_strip_commutes(s@);
    }
    let bytes = drop_hex_prefix(s);
    let ghost t = strip_hex_prefix(s@);
    assert(bytes@ == chars_to_bytes(t));
    assert(bytes@.len() == t.len());
    if bytes.len() % 2 != 0 {
        return None;
    }
    if bytes.len() > 64 {
        return None;
    }
    let n = bytes.len();
    let mut i: usize = 0;
    while i < n
        invariant
            i <= n,
            n == bytes@.len(),
            bytes@ == chars_to_bytes(t),
            t == strip_hex_prefix(s@),
            vstd::utf8::is_ascii_chars(s@),
            forall|j: int| 0 <= j < i ==> is_hex_digit(#[trigger] bytes@[j]),
        decreases n - i,
    {
        let b = *slice_index_get(bytes, i);
        if !((48 <= b && b <= 57) || (97 <= b && b <= 102)) {
            proof {
                lemma_strip_ascii(s@);
                assert(t[i as int] as u8 == b);
                assert((t[i as int] as u32) < 128);
                assert(!is_hex_digit_char(t[i as int]));
            }
            return None;
        }
        i += 1;
    }
    proof {
        lemma_strip_ascii(s@);
        assert forall|j: int| 0 <= j < t.len() implies is_hex_digit_char(#[trigger] t[j]) by {
            assert(is_hex_digit(bytes@[j]));
            assert(t[j] as u8 == bytes@[j]);
            assert((t[j] as u32) < 128);
        }
        assert(valid_hex_addr(s@));
    }
    let a = hex2bin32(bytes);
    Some(a)
}

/// The lowercase hexadecimal digit character of a nibble.
pub open spec fn hex_digit_char(n: u8) -> char {
    if n == 0 {
        '0'
    } else if n == 1 {
        '1'
    } else if n == 2 {
        '2'
    } else if n == 3 {
        '3'
    } else if n == 4 {
        '4'
    } else if n == 5 {
        '5'
    } else if n == 6 {
        '6'
    } else if n == 7 {
        '7'
    } else if n == 8 {
        '8'
    } else if n == 9 {
        '9'
    } else if n == 10 {
        'a'
    } else if n == 11 {
        'b'
    } else if n == 12 {
        'c'
    } else if n == 13 {
        'd'
    } else if n == 14 {
        'e'
    } else {
        'f'
    }
}

/// The lowercase hexadecimal rendering of a byte string: two digit
/// characters per byte, high nibble first.
pub open spec fn hex_chars(bs: Seq<u8>) -> Seq<char> {
    Seq::new(
        bs.len() * 2,
        |i: int|
            if i % 2 == 0 {
                hex_digit_char((bs[i / 2] / 16) as u8)
            } else {
                hex_digit_char((bs[i / 2] % 16) as u8)
            },
    )
}

/// The one-character text of a nibble's lowercase hexadecimal digit.
fn nibble_str(n: u8) -> (s: &'static str)
    requires
        n < 16,
    ensures
        s@ == seq![hex_digit_char(n)],
{
    proof {
        reveal_strlit("0");
        reveal_strlit("1");
        reveal_strlit("2");
        reveal_strlit("3");
        reveal_strlit("4");
        reveal_strlit("5");
        reveal_strlit("6");
        reveal_strlit("7");
        reveal_strlit("8");
        reveal_strlit("9");
        reveal_strlit("a");
        reveal_strlit("b");
        reveal_strlit("c");
        reveal_strlit("d");
        reveal_strlit("e");
        reveal_strlit("f");
    }
    let s: &'static str = match n {
        0 => "0",
        1 => "1",
        2 => "2",
        3 => "3",
        4 => "4",
        5 => "5",
        6 => "6",
        7 => "7",
        8 => "8",
        9 => "9",
        10 => "a",
        11 => "b",
        12 => "c",
        13 => "d",
        14 => "e",
        _ => "f",
    };
    proof {
        assert(s@ =~= seq![hex_digit_char(n)]);
    }
    s
}

/// Renders a 32-byte address as exactly 64 lowercase hexadecimal characters,
/// zero-padded, two per byte.
pub fn addr_to_hex(addr: &[u8; 32]) -> (s: String)
    ensures
        s@ == hex_chars(addr@),
{
    let mut s = String::new();
    let mut i: usize = 0;
    while i < 32
        invariant
            i <= 32,
            s@ == hex_chars(addr@).take(2 * i as int),
        decreases 32 - i,
    {
        let b = addr[i];
        s.append(nibble_str(b / 16));
        s.append(nibble_str(b % 16));
        proof {
            assert(s@ =~= hex_chars(addr@).take(2 * (i + 1) as int));
        }
        i += 1;
    }
    proof {
        assert(s@ =~= hex_chars(addr@));
    }
    s
}

/// Length sensitivity: text of exactly 32 or exactly 64 hexadecimal digits
/// is a valid address field (a short field is zero-padded at the back),
/// while text of 70 digits is not, since it would decode to more than 32
/// bytes.
pub proof fn lemma_parse_length(s: Seq<char>)
    requires
        forall|i: int| 0 <= i < s.len() ==> is_hex_digit_char(#[trigger] s[i]),
    ensures
        s.len() == 32 || s.len() == 64 ==> valid_hex_addr(s),
        s.len() == 70 ==> !valid_hex_addr(s),
{
    if s.len() >= 2 {
        assert(is_hex_digit_char(s[1]));
        assert(s[1] != 'x');
    }
    assert(strip_hex_prefix(s) == s);
}

/// Charset sensitivity: non-empty text drawn entirely from the letters
/// after `f` is never a valid address field.
pub proof fn lemma_parse_charset(s: Seq<char>)
    requires
        s.len() > 0,
        forall|i: int| 0 <= i < s.len() ==> 'g' <= #[trigger] s[i] && s[i] <= 'z',
    ensures
        !valid_hex_addr(s),
{
    assert(s[0] != '0');
    assert(strip_hex_prefix(s) == s);
    assert(!is_hex_digit_char(s[0]));
}

/// Prefix equivalence: text made of hexadecimal digits only is a valid
/// address field exactly when its `0x`-prefixed form is, and the two parse
/// to the same address bytes.
pub proof fn lemma_prefix_equivalence(s: Seq<char>)
    requires
        forall|i: int| 0 <= i < s.len() ==> is_hex_digit_char(#[trigger] s[i]),
    ensures
        valid_hex_addr(seq!['0', 'x'] + s) == valid_hex_addr(s),
        decoded_addr(seq!['0', 'x'] + s) == decoded_addr(s),
{
    let p = seq!['0', 'x'] + s;
    assert(p[0] == '0' && p[1] == 'x');
    assert(strip_hex_prefix(p) =~= s);
    if s.len() >= 2 {
        assert(is_hex_digit_char(s[1]));
        assert(s[1] != 'x');
    }
    assert(strip_hex_prefix(s) == s);
    assert(chars_to_bytes(strip_hex_prefix(p)) == chars_to_bytes(s));
}

/// The stripped form of ASCII text is ASCII.
proof fn lemma_strip_ascii(cs: Seq<char>)
    requires
        vstd::utf8::is_ascii_chars(cs),
    ensures
        vstd::utf8::is_ascii_chars(strip_hex_prefix(cs)),
        forall|j: int|
            0 <= j < strip_hex_prefix(cs).len() ==> ((#[trigger] strip_hex_prefix(cs)[j]) as u32) < 128,
{
    let t = strip_hex_prefix(cs);
    assert forall|j: int| 0 <= j < t.len() implies '\0' <= #[trigger] t[j] <= '\u{7f}' && (t[j] as u32) < 128 by {
        if cs.len() >= 2 && cs[0] == '0' && cs[1] == 'x' {
            assert(t[j] == cs[j + 2]);
        } else {
            assert(t[j] == cs[j]);
        }
    }
}

} // verus!
