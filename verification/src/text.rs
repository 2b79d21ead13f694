//! Building text: characters, decimal numbers and UTF-8 decoding.

use vstd::prelude::*;
use vstd::utf8::{encode_utf8, valid_utf8};

verus! {

/// The character of the decimal digit `d`.
pub open spec fn digit_char(d: nat) -> char
    recommends
        d < 10,
{
    (48 + d) as char
}

/// `n` written in decimal, without sign or leading zeros.
pub open spec fn decimal(n: nat) -> Seq<char>
    decreases n,
{
    if n < 10 {
        seq![digit_char(n)]
    } else {
        decimal(n / 10).push(digit_char(n % 10))
    }
}

/// The bytes of `data` in decimal, separated by a comma and a space.
pub open spec fn comma_separated(data: Seq<u8>) -> Seq<char>
    decreases data.len(),
{
    if data.len() == 0 {
        Seq::empty()
    } else if data.len() == 1 {
        decimal(data[0] as nat)
    } else {
        comma_separated(data.drop_last()) + seq![',', ' '] + decimal(data.last() as nat)
    }
}

/// The bytes of `data` as a bracketed list, such as `[1, 2, 3]`.
pub open spec fn byte_list(data: Seq<u8>) -> Seq<char> {
    seq!['['] + comma_separated(data) + seq![']']
}

/// Each byte of `bytes` taken as the character with that code.
pub open spec fn latin(bytes: Seq<u8>) -> Seq<char> {
    Seq::new(bytes.len(), |i: int| bytes[i] as char)
}

/// Appends `c` to `text`.
///
/// Trusted: the body is `String::push`, which appends the given character to
/// the end of the string.
#[verifier::external_body]
pub(crate) fn push_char(text: &mut String, c: char)
    ensures
        final(text)@ == old(text)@.push(c),
{
    text.push(c);
}

/// Turns bytes into text where they are valid UTF-8.
///
/// Trusted: the body is `String::from_utf8`, which succeeds exactly on valid
/// UTF-8 and then yields the string whose encoding is the given bytes.
#[verifier::external_body]
pub(crate) fn string_from_utf8(bytes: Vec<u8>) -> (r: Option<String>)
    ensures
        r is Some <==> valid_utf8(bytes@),
        r matches Some(text) ==> encode_utf8(text@) == bytes@,
{
    match String::from_utf8(bytes) {
        Ok(text) => Some(text),
        Err(_) => None,
    }
}

/// Appends the character with code `b` to `text`.
pub(crate) fn push_byte(text: &mut String, b: u8)
    ensures
        final(text)@ == old(text)@.push(b as char),
{
    push_char(text, b as char);
}

/// Appends `n` in decimal to `text`.
pub(crate) fn push_decimal(text: &mut String, n: u64)
    ensures
        final(text)@ == old(text)@ + decimal(n as nat),
    decreases n,
{
    if n >= 10 {
        push_decimal(text, n / 10);
    }
    let d = (n % 10) as u8;
    push_char(text, (48 + d) as char);
    assert(text@ =~= old(text)@ + decimal(n as nat));
}

/// Appends the bracketed list of `data` to `text`.
pub(crate) fn push_byte_list(text: &mut String, data: &[u8])
    ensures
        final(text)@ == old(text)@ + byte_list(data@),
{
    push_char(text, '[');
    let mut i: usize = 0;
    while i < data.len()
        invariant
            i <= data@.len(),
            text@ == old(text)@ + seq!['['] + comma_separated(data@.take(i as int)),
        decreases data@.len() - i,
    {
        if i > 0 {
            push_char(text, ',');
            push_char(text, ' ');
        }
        push_decimal(text, data[i] as u64);
        proof {
            let before = data@.take(i as int);
            let after = data@.take(i + 1);
            assert(after.drop_last() =~= before);
            assert(after.last() == data@[i as int]);
            assert(text@ =~= old(text)@ + seq!['['] + comma_separated(after));
        }
        i += 1;
    }
    push_char(text, ']');
    proof {
        assert(data@.take(i as int) =~= data@);
        assert(text@ =~= old(text)@ + byte_list(data@));
    }
}

} // verus!
