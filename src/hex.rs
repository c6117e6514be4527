use vstd::prelude::*;

verus! {

pub open spec fn is_hex_digit(c: char) -> bool {
    ('0' <= c && c <= '9') || ('a' <= c && c <= 'f') || ('A' <= c && c <= 'F')
}

pub open spec fn hex_digit_value(c: char) -> nat {
    if '0' <= c && c <= '9' {
        (c as u32 - '0' as u32) as nat
    } else if 'a' <= c && c <= 'f' {
        (c as u32 - 'a' as u32 + 10) as nat
    } else {
        (c as u32 - 'A' as u32 + 10) as nat
    }
}

/// The value of a string of hex digits, most significant first.
pub open spec fn hex_value(d: Seq<char>) -> nat
    decreases d.len(),
{
    if d.len() == 0 {
        0
    } else {
        hex_value(d.drop_last()) * 16 + hex_digit_value(d.last())
    }
}

/// The digits of `s` once an optional leading `+` is taken off.
pub open spec fn hex_digits(s: Seq<char>) -> Seq<char> {
    if s.len() > 0 && s[0] == '+' {
        s.drop_first()
    } else {
        s
    }
}

/// Whether `s` is an optional `+` and one or more hex digits whose value fits in 32 bits.
pub open spec fn is_u32_hex(s: Seq<char>) -> bool {
    let d = hex_digits(s);
    &&& d.len() > 0
    &&& forall|i: int| 0 <= i < d.len() ==> is_hex_digit(#[trigger] d[i])
    &&& hex_value(d) <= u32::MAX
}

/// Relies on `u32::from_str_radix` with radix 16: it accepts an optional `+`
/// followed by one or more digits 0-9, a-f, A-F whose value fits in a `u32`, and
/// returns that value; anything else is an error, kept here as its message.
#[verifier::external_body]
fn from_hex_radix(s: &str) -> (r: Result<u32, String>)
    ensures
        r is Ok <==> is_u32_hex(s@),
        r matches Ok(v) ==> v as nat == hex_value(hex_digits(s@)),
{
    u32::from_str_radix(s, 16).map_err(|err| err.to_string())
}

/// Reads a checksum written in hexadecimal (`DEADBEEF`, `deadbeef`, `+1f`).
pub fn parse_u32_hex(value: &str) -> (r: Result<u32, String>)
    ensures
        r is Ok <==> is_u32_hex(value@),
        r matches Ok(v) ==> v as nat == hex_value(hex_digits(value@)),
{
    from_hex_radix(value)
}

} // verus!
