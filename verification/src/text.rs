//! Text held as bytes: UTF-8 strings, decimal numbers and percent-escapes.

use vstd::prelude::*;
use vstd::utf8::*;

verus! {

/// Calls `String::from_utf8`. Claimed, as std documents it: the call
/// succeeds exactly on valid UTF-8, and the string it gives is made of the
/// bytes it was given.
#[verifier::external_body]
pub(crate) fn string_from_utf8(bytes: Vec<u8>) -> (r: Option<String>)
    ensures
        r is Some <==> valid_utf8(bytes@),
        r matches Some(s) ==> encode_utf8(s@) == bytes@,
{
    String::from_utf8(bytes).ok()
}

/// Whether every byte is an ASCII character.
pub open spec fn is_ascii(bytes: Seq<u8>) -> bool {
    forall|i: int| 0 <= i < bytes.len() ==> #[trigger] bytes[i] < 128
}

/// The ASCII character of the decimal digit `d`.
pub open spec fn digit(d: int) -> u8 {
    ('0' as u8 + d) as u8
}

/// The number in base ten, without leading zeros.
pub open spec fn decimal(n: nat) -> Seq<u8>
    decreases n,
{
    if n < 10 {
        seq![digit(n as int)]
    } else {
        decimal(n / 10).push(digit((n % 10) as int))
    }
}

/// Whether the byte stands for itself in a query string: a letter, a digit,
/// or one of `-`, `.`, `_` and `~`.
pub open spec fn unreserved(b: u8) -> bool {
    ||| 'a' as u8 <= b <= 'z' as u8
    ||| 'A' as u8 <= b <= 'Z' as u8
    ||| '0' as u8 <= b <= '9' as u8
    ||| b == '-' as u8
    ||| b == '.' as u8
    ||| b == '_' as u8
    ||| b == '~' as u8
}

/// The ASCII character of the hexadecimal digit `d`, in upper case.
pub open spec fn hex_upper(d: int) -> u8 {
    if d < 10 {
        ('0' as u8 + d) as u8
    } else {
        ('A' as u8 + d - 10) as u8
    }
}

/// The byte as it stands in a query string: itself where it is unreserved,
/// else `%` and its two hexadecimal digits.
pub open spec fn escape(b: u8) -> Seq<u8> {
    if unreserved(b) {
        seq![b]
    } else {
        seq!['%' as u8, hex_upper(b as int / 16), hex_upper(b as int % 16)]
    }
}

/// The bytes as they stand in a query string, each escaped in turn.
pub open spec fn percent_encode(data: Seq<u8>) -> Seq<u8>
    decreases data.len(),
{
    if data.len() == 0 {
        Seq::empty()
    } else {
        percent_encode(data.drop_last()) + escape(data.last())
    }
}

/// A number in base ten is ASCII.
pub proof fn lemma_decimal_ascii(n: nat)
    ensures
        is_ascii(decimal(n)),
        decimal(n).len() > 0,
    decreases n,
{
    if n >= 10 {
        lemma_decimal_ascii(n / 10);
    }
}

/// Escaped bytes are ASCII.
pub proof fn lemma_percent_encode_ascii(data: Seq<u8>)
    ensures
        is_ascii(percent_encode(data)),
    decreases data.len(),
{
    if data.len() > 0 {
        lemma_percent_encode_ascii(data.drop_last());
    }
}

/// Appends a number in base ten.
pub fn push_decimal(out: &mut Vec<u8>, n: u64)
    ensures
        final(out)@ == old(out)@ + decimal(n as nat),
    decreases n,
{
    if n >= 10 {
        push_decimal(out, n / 10);
    }
    out.push('0' as u8 + (n % 10) as u8);
    assert(out@ =~= old(out)@ + decimal(n as nat));
}

/// The ASCII character of a hexadecimal digit, in upper case.
pub fn hex_upper_digit(d: u8) -> (r: u8)
    requires
        d < 16,
    ensures
        r == hex_upper(d as int),
{
    if d < 10 {
        '0' as u8 + d
    } else {
        'A' as u8 + (d - 10)
    }
}

/// Whether the byte stands for itself in a query string.
pub fn is_unreserved(b: u8) -> (r: bool)
    ensures
        r == unreserved(b),
{
    ('a' as u8 <= b && b <= 'z' as u8) || ('A' as u8 <= b && b <= 'Z' as u8) || ('0' as u8 <= b
        && b <= '9' as u8) || b == '-' as u8 || b == '.' as u8 || b == '_' as u8 || b == '~' as u8
}

/// Appends the bytes as they stand in a query string.
pub fn push_percent_encoded(out: &mut Vec<u8>, data: &[u8])
    ensures
        final(out)@ == old(out)@ + percent_encode(data@),
{
    let mut i: usize = 0;
    while i < data.len()
        invariant
            i <= data@.len(),
            out@ == old(out)@ + percent_encode(data@.take(i as int)),
        decreases data@.len() - i,
    {
        let b = data[i];
        let ghost before = out@;
        if is_unreserved(b) {
            out.push(b);
        } else {
            out.push('%' as u8);
            out.push(hex_upper_digit(b / 16));
            out.push(hex_upper_digit(b % 16));
        }
        proof {
            assert(out@ =~= before + escape(b));
            assert(data@.take(i + 1).drop_last() =~= data@.take(i as int));
            assert(data@.take(i + 1).last() == b);
            assert(out@ =~= old(out)@ + percent_encode(data@.take(i + 1)));
        }
        i += 1;
    }
    assert(data@.take(data@.len() as int) =~= data@);
}

/// The characters of ASCII bytes.
pub open spec fn ascii_chars(bytes: Seq<u8>) -> Seq<char> {
    Seq::new(bytes.len(), |i: int| bytes[i] as char)
}

/// ASCII bytes are valid UTF-8, and are the encoding of their characters.
pub proof fn lemma_ascii_valid_utf8(bytes: Seq<u8>)
    requires
        is_ascii(bytes),
    ensures
        valid_utf8(bytes),
        encode_utf8(ascii_chars(bytes)) == bytes,
{
    let chars = ascii_chars(bytes);
    assert forall|i: int| 0 <= i < chars.len() implies '\0' <= #[trigger] chars[i] <= '\u{7f}' by {
        assert(bytes[i] < 128);
    }
    is_ascii_chars_encode_utf8(chars);
    assert forall|i: int| 0 <= i < bytes.len() implies encode_utf8(chars)[i] == bytes[i] by {
        assert(bytes[i] < 128);
        assert(chars[i] as u8 == bytes[i]);
    }
    assert(encode_utf8(chars) =~= bytes);
    encode_utf8_valid_utf8(chars);
}

/// Makes a string of ASCII bytes.
pub fn ascii_string(bytes: Vec<u8>) -> (r: String)
    requires
        is_ascii(bytes@),
    ensures
        encode_utf8(r@) == bytes@,
{
    proof {
        lemma_ascii_valid_utf8(bytes@);
    }
    match string_from_utf8(bytes) {
        Some(s) => s,
        None => String::new(),
    }
}

} // verus!
