//! Hex encoding (through the `hex` crate) and whitespace trimming.

use vstd::prelude::*;

verus! {

/// Lower-case hex digit for a value in `0..16`.
pub open spec fn hex_digit(v: int) -> char {
    if v < 10 {
        (v + 48) as char
    } else {
        (v + 87) as char
    }
}

/// Value of a hex digit (either case), or `-1` for any other character.
pub open spec fn hex_value(c: char) -> int {
    if '0' <= c && c <= '9' {
        c as int - 48
    } else if 'a' <= c && c <= 'f' {
        c as int - 87
    } else if 'A' <= c && c <= 'F' {
        c as int - 55
    } else {
        -1
    }
}

pub open spec fn is_hex_digit(c: char) -> bool {
    hex_value(c) >= 0
}

/// A string that decodes as hex: an even number of hex digits.
pub open spec fn is_hex(s: Seq<char>) -> bool {
    &&& s.len() % 2 == 0
    &&& forall|i: int| 0 <= i < s.len() ==> #[trigger] is_hex_digit(s[i])
}

/// Lower-case hex encoding: two digits per byte, high nibble first.
pub open spec fn hex_encode_spec(bytes: Seq<u8>) -> Seq<char> {
    Seq::new(
        2 * bytes.len(),
        |i: int|
            if i % 2 == 0 {
                hex_digit(bytes[i / 2] as int / 16)
            } else {
                hex_digit(bytes[i / 2] as int % 16)
            },
    )
}

/// The bytes that a hex string stands for.
pub open spec fn hex_decode_spec(s: Seq<char>) -> Seq<u8> {
    Seq::new(
        s.len() / 2,
        |i: int| (hex_value(s[2 * i]) * 16 + hex_value(s[2 * i + 1])) as u8,
    )
}

/// `hex::FromHexError`.
#[verifier::external_type_specification]
#[verifier::external_body]
pub struct ExFromHexError(hex::FromHexError);

/// `hex::encode`: lower-case hex, two digits per byte.
#[verifier::external_body]
pub(crate) fn hex_encode(bytes: &[u8]) -> (s: String)
    ensures
        s@ == hex_encode_spec(bytes@),
{
    hex::encode(bytes)
}

/// `hex::decode`: succeeds exactly on an even number of hex digits of either
/// case, and gives the bytes they stand for.
#[verifier::external_body]
pub(crate) fn hex_decode(s: &str) -> (r: Result<Vec<u8>, hex::FromHexError>)
    ensures
        r is Ok <==> is_hex(s@),
        r matches Ok(v) ==> v@ == hex_decode_spec(s@),
{
    hex::decode(s)
}

/// The message of a hex decoding error (its `Display`), after `prefix`.
#[verifier::external_body]
pub(crate) fn hex_error_message(prefix: &str, e: &hex::FromHexError) -> (m: String)
    ensures
        prefix@.len() <= m@.len(),
        m@.subrange(0, prefix@.len() as int) == prefix@,
{
    format!("{}{}", prefix, e)
}

/// Every character that `char::is_whitespace` accepts (Unicode `White_Space`).
pub open spec fn is_ws(c: char) -> bool {
    ||| ('\u{9}' <= c && c <= '\u{d}')
    ||| c == ' '
    ||| c == '\u{85}'
    ||| c == '\u{a0}'
    ||| c == '\u{1680}'
    ||| ('\u{2000}' <= c && c <= '\u{200a}')
    ||| c == '\u{2028}'
    ||| c == '\u{2029}'
    ||| c == '\u{202f}'
    ||| c == '\u{205f}'
    ||| c == '\u{3000}'
}

/// `s` without its leading whitespace.
pub open spec fn trim_start_spec(s: Seq<char>) -> Seq<char>
    decreases s.len(),
{
    if s.len() > 0 && is_ws(s[0]) {
        trim_start_spec(s.drop_first())
    } else {
        s
    }
}

/// `s` without its trailing whitespace.
pub open spec fn trim_end_spec(s: Seq<char>) -> Seq<char>
    decreases s.len(),
{
    if s.len() > 0 && is_ws(s.last()) {
        trim_end_spec(s.drop_last())
    } else {
        s
    }
}

/// `s` without leading and trailing whitespace, as `str::trim` gives it.
pub open spec fn trim_spec(s: Seq<char>) -> Seq<char> {
    trim_end_spec(trim_start_spec(s))
}

/// Whether `c` is whitespace, as `char::is_whitespace` decides it.
pub fn is_whitespace(c: char) -> (b: bool)
    ensures
        b == is_ws(c),
{
    ('\u{9}' <= c && c <= '\u{d}') || c == ' ' || c == '\u{85}' || c == '\u{a0}' || c == '\u{1680}'
        || ('\u{2000}' <= c && c <= '\u{200a}') || c == '\u{2028}' || c == '\u{2029}' || c
        == '\u{202f}' || c == '\u{205f}' || c == '\u{3000}'
}

/// `s` without leading and trailing whitespace.
pub fn trim(s: &str) -> (t: &str)
    ensures
        t@ == trim_spec(s@),
{
    let n = s.unicode_len();
    let mut i: usize = 0;
    assert(s@.subrange(0, n as int) =~= s@);
    while i < n && is_whitespace(s.get_char(i))
        invariant
            n == s@.len(),
            i <= n,
            trim_start_spec(s@) == trim_start_spec(s@.subrange(i as int, n as int)),
        decreases n - i,
    {
        assert(s@.subrange(i as int, n as int).drop_first() =~= s@.subrange(i + 1, n as int));
        i = i + 1;
    }
    let mut j: usize = n;
    proof {
        if i < n {
            assert(!is_ws(s@[i as int]));
            assert(trim_start_spec(s@.subrange(i as int, n as int)) == s@.subrange(
                i as int,
                n as int,
            ));
        } else {
            assert(s@.subrange(i as int, n as int).len() == 0);
        }
    }
    while j > i && is_whitespace(s.get_char(j - 1))
        invariant
            n == s@.len(),
            i <= j <= n,
            trim_start_spec(s@) == s@.subrange(i as int, n as int),
            trim_spec(s@) == trim_end_spec(s@.subrange(i as int, j as int)),
        decreases j,
    {
        assert(s@.subrange(i as int, j as int).drop_last() =~= s@.subrange(i as int, j - 1));
        j = j - 1;
    }
    proof {
        if j > i {
            assert(!is_ws(s@.subrange(i as int, j as int).last()));
        }
    }
    s.substring_char(i, j)
}

/// Hex text never starts or ends with whitespace, so trimming keeps it.
pub proof fn lemma_trim_hex(bytes: Seq<u8>)
    ensures
        trim_spec(hex_encode_spec(bytes)) == hex_encode_spec(bytes),
{
    let h = hex_encode_spec(bytes);
    lemma_hex_encode_digits(bytes);
    if h.len() > 0 {
        assert(!is_ws(h[0])) by {
            assert(is_hex_digit(h[0]));
        }
        assert(!is_ws(h.last())) by {
            assert(is_hex_digit(h[h.len() - 1]));
        }
    }
}

/// Hex encoding gives an even number of hex digits.
pub proof fn lemma_hex_encode_digits(bytes: Seq<u8>)
    ensures
        is_hex(hex_encode_spec(bytes)),
{
    let h = hex_encode_spec(bytes);
    assert forall|i: int| 0 <= i < h.len() implies #[trigger] is_hex_digit(h[i]) by {
        let b = bytes[i / 2] as int;
        assert(0 <= b / 16 < 16);
        assert(0 <= b % 16 < 16);
    }
}

/// Decoding the hex encoding of some bytes gives those bytes back.
pub proof fn lemma_hex_roundtrip(bytes: Seq<u8>)
    ensures
        is_hex(hex_encode_spec(bytes)),
        hex_decode_spec(hex_encode_spec(bytes)) == bytes,
{
    lemma_hex_encode_digits(bytes);
    let h = hex_encode_spec(bytes);
    let d = hex_decode_spec(h);
    assert(d.len() == bytes.len());
    assert forall|i: int| 0 <= i < bytes.len() implies #[trigger] d[i] == bytes[i] by {
        assert((2 * i) % 2 == 0);
        assert((2 * i + 1) % 2 == 1);
        assert((2 * i) / 2 == i);
        assert((2 * i + 1) / 2 == i);
        let b = bytes[i] as int;
        assert(hex_value(hex_digit(b / 16)) == b / 16);
        assert(hex_value(hex_digit(b % 16)) == b % 16);
        assert((b / 16) * 16 + b % 16 == b);
    }
    assert(d =~= bytes);
}

/// A string with its ASCII lower-case letters made upper case.
pub open spec fn ascii_upper_spec(s: Seq<char>) -> Seq<char> {
    Seq::new(
        s.len(),
        |i: int|
            if 'a' <= s[i] && s[i] <= 'z' {
                (s[i] as int - 32) as char
            } else {
                s[i]
            },
    )
}

/// Hex is read without regard to case: a hex string written in upper case
/// is still hex, of the same length, and stands for the same bytes. So a
/// group id given in upper case looks up the group by the same 32 bytes.
pub proof fn law_hex_case_insensitive(s: Seq<char>)
    requires
        is_hex(s),
    ensures
        is_hex(ascii_upper_spec(s)),
        ascii_upper_spec(s).len() == s.len(),
        hex_decode_spec(ascii_upper_spec(s)) == hex_decode_spec(s),
{
    let u = ascii_upper_spec(s);
    assert forall|i: int| 0 <= i < s.len() implies hex_value(#[trigger] u[i]) == hex_value(s[i]) by {
        assert(is_hex_digit(s[i]));
    }
    assert forall|i: int| 0 <= i < u.len() implies #[trigger] is_hex_digit(u[i]) by {
        assert(hex_value(u[i]) == hex_value(s[i]));
        assert(is_hex_digit(s[i]));
    }
    let du = hex_decode_spec(u);
    let ds = hex_decode_spec(s);
    assert forall|i: int| 0 <= i < ds.len() implies #[trigger] du[i] == ds[i] by {
        assert(hex_value(u[2 * i]) == hex_value(s[2 * i]));
        assert(hex_value(u[2 * i + 1]) == hex_value(s[2 * i + 1]));
    }
    assert(du =~= ds);
}

} // verus!
