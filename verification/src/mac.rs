//! Hardware (MAC) addresses: the six bytes, their text forms, and the
//! `mac_address` crate's parser and formatter behind them.

use vstd::prelude::*;

verus! {

/// A 48-bit hardware address.
#[derive(Clone, Copy, Debug, PartialEq, Eq)]
pub struct MacAddress {
    pub bytes: [u8; 6],
}

impl View for MacAddress {
    type V = Seq<u8>;

    open spec fn view(&self) -> Seq<u8> {
        self.bytes@
    }
}

/// Why a text is not a hardware address.
#[derive(Clone, Copy, Debug, PartialEq, Eq)]
pub enum MacParseError {
    /// The text holds something that is not a hexadecimal byte where one belongs.
    InvalidDigit,
    /// The text is not ASCII, or its length is neither 12 nor 17.
    InvalidLength,
}

impl MacParseError {
    /// The error's message.
    pub fn message(&self) -> (r: &'static str)
        ensures
            *self == MacParseError::InvalidDigit ==> r@ == "invalid digit"@,
            *self == MacParseError::InvalidLength ==> r@ == "invalid length"@,
    {
        match self {
            MacParseError::InvalidDigit => "invalid digit",
            MacParseError::InvalidLength => "invalid length",
        }
    }
}

/// The value of a hexadecimal digit, either case.
pub open spec fn hex_value(c: char) -> Option<u8> {
    if '0' <= c && c <= '9' {
        Some((c as u32 - '0' as u32) as u8)
    } else if 'A' <= c && c <= 'F' {
        Some((c as u32 - 'A' as u32 + 10) as u8)
    } else if 'a' <= c && c <= 'f' {
        Some((c as u32 - 'a' as u32 + 10) as u8)
    } else {
        None
    }
}

pub open spec fn is_hex_digit(c: char) -> bool {
    hex_value(c) is Some
}

/// The upper-case hexadecimal digit for `n`, which is below 16.
pub open spec fn upper_hex_digit(n: int) -> char {
    if n < 10 {
        (n + '0' as u32) as char
    } else {
        (n - 10 + 'A' as u32) as char
    }
}

/// The text of a hardware address: six upper-case hexadecimal byte pairs
/// separated by colons, such as `80:FA:5B:41:10:6B`.
pub open spec fn mac_text(bytes: Seq<u8>) -> Seq<char> {
    Seq::new(
        17,
        |i: int|
            if i % 3 == 2 {
                ':'
            } else if i % 3 == 0 {
                upper_hex_digit(bytes[i / 3] as int / 16)
            } else {
                upper_hex_digit(bytes[i / 3] as int % 16)
            },
    )
}

/// Six hexadecimal byte pairs, either case, each two separated by a colon or
/// a hyphen.
pub open spec fn is_separated_mac_text(s: Seq<char>) -> bool {
    &&& s.len() == 17
    &&& forall|i: int|
        0 <= i < 17 ==> if i % 3 == 2 {
            s[i] == ':' || s[i] == '-'
        } else {
            is_hex_digit(#[trigger] s[i])
        }
}

/// Twelve hexadecimal digits, either case.
pub open spec fn is_bare_mac_text(s: Seq<char>) -> bool {
    &&& s.len() == 12
    &&& forall|i: int| 0 <= i < 12 ==> is_hex_digit(#[trigger] s[i])
}

/// The byte of two hexadecimal digits.
pub open spec fn hex_pair(hi: char, lo: char) -> u8 {
    (hex_value(hi)->0 * 16 + hex_value(lo)->0) as u8
}

/// The bytes that a separated text spells.
pub open spec fn separated_mac_bytes(s: Seq<char>) -> Seq<u8> {
    Seq::new(6, |k: int| hex_pair(s[3 * k], s[3 * k + 1]))
}

/// The bytes that a bare text spells.
pub open spec fn bare_mac_bytes(s: Seq<char>) -> Seq<u8> {
    Seq::new(6, |k: int| hex_pair(s[2 * k], s[2 * k + 1]))
}

/// A character with A to Z turned into a to z.
pub open spec fn ascii_lower_char(c: char) -> char {
    if 'A' <= c && c <= 'Z' {
        (c as u32 + 32) as char
    } else {
        c
    }
}

/// A text with A to Z turned into a to z.
pub open spec fn ascii_lowercase(s: Seq<char>) -> Seq<char> {
    s.map_values(|c: char| ascii_lower_char(c))
}

/// What `<mac_address::MacAddress as FromStr>::from_str` gives for a text:
/// the six bytes, or nothing where it fails.
pub uninterp spec fn mac_from_str(text: Seq<char>) -> Option<Seq<u8>>;

/// Calls `<mac_address::MacAddress as FromStr>::from_str` and hands back the
/// address's bytes, or the crate's error variant as this library's.
/// The contract claims, as the crate's source shows it: a text that is not
/// ASCII, or whose length is neither 12 nor 17, fails with `InvalidLength`;
/// any other failure is `InvalidDigit`; six hexadecimal pairs separated by
/// colons or hyphens, or twelve hexadecimal digits, give the bytes they spell.
/// What other texts of length 12 or 17 give is left to the name
/// `mac_from_str` (the crate takes one sign character in a pair, and with
/// length 17 it splits on either separator and reads at most six parts).
#[verifier::external_body]
fn mac_address_from_str(text: &str) -> (r: Result<[u8; 6], MacParseError>)
    ensures
        r matches Ok(b) ==> mac_from_str(text@) == Some(b@),
        r is Err ==> mac_from_str(text@) is None,
        (r == Err::<[u8; 6], MacParseError>(MacParseError::InvalidLength)) <==> (!text.is_ascii() || (
        text@.len() != 12 && text@.len() != 17)),
        is_separated_mac_text(text@) ==> r is Ok && r->Ok_0@ == separated_mac_bytes(text@),
        is_bare_mac_text(text@) ==> r is Ok && r->Ok_0@ == bare_mac_bytes(text@),
{
    match text.parse::<mac_address::MacAddress>() {
        Ok(mac) => Ok(mac.bytes()),
        Err(mac_address::MacParseError::InvalidDigit) => Err(MacParseError::InvalidDigit),
        Err(mac_address::MacParseError::InvalidLength) => Err(MacParseError::InvalidLength),
    }
}

/// Calls `Display` of `mac_address::MacAddress` (through `to_string`), which
/// writes each byte as two upper-case hexadecimal digits and puts a colon
/// between each two: the contract claims that text.
#[verifier::external_body]
fn mac_address_to_string(bytes: [u8; 6]) -> (r: String)
    ensures
        r@ == mac_text(bytes@),
{
    mac_address::MacAddress::new(bytes).to_string()
}

/// Calls std's `str::to_lowercase`. The contract claims only what its
/// documentation gives for ASCII text: A to Z become a to z and nothing else
/// changes; of other text it says nothing.
#[verifier::external_body]
fn str_to_lowercase(s: &str) -> (r: String)
    ensures
        s.is_ascii() ==> r@ == ascii_lowercase(s@),
{
    s.to_lowercase()
}

/// Reads a hardware address from its text.
pub fn parse_mac_address(text: &str) -> (r: Result<MacAddress, MacParseError>)
    ensures
        r matches Ok(m) ==> mac_from_str(text@) == Some(m@),
        r is Err ==> mac_from_str(text@) is None,
        (r == Err::<MacAddress, MacParseError>(MacParseError::InvalidLength)) <==> (!text.is_ascii() || (
        text@.len() != 12 && text@.len() != 17)),
        is_separated_mac_text(text@) ==> r is Ok && r->Ok_0@ == separated_mac_bytes(text@),
        is_bare_mac_text(text@) ==> r is Ok && r->Ok_0@ == bare_mac_bytes(text@),
{
    match mac_address_from_str(text) {
        Ok(bytes) => Ok(MacAddress { bytes }),
        Err(e) => Err(e),
    }
}


/// The text of an address: six upper-case hexadecimal pairs separated by colons.
pub fn mac_to_string(mac: &MacAddress) -> (r: String)
    ensures
        r@ == mac_text(mac@),
{
    mac_address_to_string(mac.bytes)
}

/// The text of an address in lower case, the form that configuration files
/// are searched for.
pub fn mac_to_lower_string(mac: &MacAddress) -> (r: String)
    ensures
        r@ == ascii_lowercase(mac_text(mac@)),
{
    let upper = mac_address_to_string(mac.bytes);
    proof {
        lemma_mac_text_is_ascii(mac@);
    }
    str_to_lowercase(upper.as_str())
}

/// A hexadecimal digit written back as text has its value.
proof fn lemma_upper_hex_digit(n: int)
    requires
        0 <= n < 16,
    ensures
        hex_value(upper_hex_digit(n)) == Some(n as u8),
        '\0' <= upper_hex_digit(n) <= '\u{7f}',
{
}

/// A digit and its upper-case spelling agree in lower case.
proof fn lemma_hex_digit_lower(c: char)
    requires
        is_hex_digit(c),
    ensures
        ascii_lower_char(upper_hex_digit(hex_value(c)->0 as int)) == ascii_lower_char(c),
{
}

/// The two digits of a pair are its high and low half.
proof fn lemma_hex_pair(hi: char, lo: char)
    requires
        is_hex_digit(hi),
        is_hex_digit(lo),
    ensures
        hex_pair(hi, lo) as int / 16 == hex_value(hi)->0 as int,
        hex_pair(hi, lo) as int % 16 == hex_value(lo)->0 as int,
{
    let a: int = hex_value(hi)->0 as int;
    let b: int = hex_value(lo)->0 as int;
    assert(0 <= a < 16 && 0 <= b < 16);
    assert((a * 16 + b) / 16 == a && (a * 16 + b) % 16 == b) by (nonlinear_arith)
        requires
            0 <= a < 16,
            0 <= b < 16,
    ;
}

/// The text of an address is ASCII.
pub proof fn lemma_mac_text_is_ascii(mac: Seq<u8>)
    requires
        mac.len() == 6,
    ensures
        vstd::utf8::is_ascii_chars(mac_text(mac)),
{
    assert forall|i: int| 0 <= i < 17 implies '\0' <= #[trigger] mac_text(mac)[i] <= '\u{7f}' by {
        let b: int = mac[i / 3] as int;
        assert(0 <= b / 16 < 16 && 0 <= b % 16 < 16) by (nonlinear_arith)
            requires
                0 <= b < 256,
        ;
        lemma_upper_hex_digit(b / 16);
        lemma_upper_hex_digit(b % 16);
    }
}

/// Writing an address as text and reading the text back gives the address.
pub proof fn lemma_mac_text_parses_back(mac: Seq<u8>)
    requires
        mac.len() == 6,
    ensures
        is_separated_mac_text(mac_text(mac)),
        separated_mac_bytes(mac_text(mac)) == mac,
{
    let t = mac_text(mac);
    assert forall|i: int| 0 <= i < 17 && i % 3 != 2 implies is_hex_digit(#[trigger] t[i]) by {
        let b: int = mac[i / 3] as int;
        assert(0 <= b / 16 < 16 && 0 <= b % 16 < 16) by (nonlinear_arith)
            requires
                0 <= b < 256,
        ;
        lemma_upper_hex_digit(b / 16);
        lemma_upper_hex_digit(b % 16);
    }
    assert forall|k: int| 0 <= k < 6 implies #[trigger] separated_mac_bytes(t)[k] == mac[k] by {
        let b: int = mac[k] as int;
        assert((3 * k) / 3 == k && (3 * k + 1) / 3 == k && (3 * k) % 3 == 0 && (3 * k + 1) % 3 == 1);
        assert(0 <= b / 16 < 16 && 0 <= b % 16 < 16 && (b / 16) * 16 + b % 16 == b) by (nonlinear_arith)
            requires
                0 <= b < 256,
        ;
        lemma_upper_hex_digit(b / 16);
        lemma_upper_hex_digit(b % 16);
    }
    assert(separated_mac_bytes(t) =~= mac);
}

/// Six hexadecimal pairs separated by colons, either case.
pub open spec fn is_colon_mac_text(s: Seq<char>) -> bool {
    &&& is_separated_mac_text(s)
    &&& forall|i: int| 0 <= i < 17 && i % 3 == 2 ==> #[trigger] s[i] == ':'
}

/// Reading a colon-separated text and writing the address back gives the
/// same text, up to the case of its letters.
pub proof fn lemma_colon_text_formats_back(s: Seq<char>)
    requires
        is_colon_mac_text(s),
    ensures
        ascii_lowercase(mac_text(separated_mac_bytes(s))) == ascii_lowercase(s),
{
    let bytes = separated_mac_bytes(s);
    let t = mac_text(bytes);
    assert forall|i: int| 0 <= i < 17 implies #[trigger] ascii_lower_char(t[i]) == ascii_lower_char(s[i]) by {
        if i % 3 != 2 {
            let k: int = i / 3;
            assert(0 <= k < 6);
            assert(3 * k <= i <= 3 * k + 1);
            assert(is_hex_digit(s[3 * k]));
            assert(is_hex_digit(s[3 * k + 1]));
            lemma_hex_pair(s[3 * k], s[3 * k + 1]);
            if i % 3 == 0 {
                assert(i == 3 * k);
                lemma_hex_digit_lower(s[i]);
            } else {
                assert(i == 3 * k + 1);
                lemma_hex_digit_lower(s[i]);
            }
        }
    }
    assert(ascii_lowercase(t) =~= ascii_lowercase(s));
}


/// The text of an address, and its lower-case form, are both six
/// hexadecimal pairs separated by colons.
pub proof fn lemma_mac_text_colon_forms(mac: Seq<u8>)
    requires
        mac.len() == 6,
    ensures
        is_colon_mac_text(mac_text(mac)),
        is_colon_mac_text(ascii_lowercase(mac_text(mac))),
{
    lemma_mac_text_parses_back(mac);
    let t = mac_text(mac);
    let l = ascii_lowercase(t);
    assert forall|i: int| 0 <= i < 17 && i % 3 == 2 implies #[trigger] t[i] == ':' by {}
    assert forall|i: int| 0 <= i < 17 && i % 3 == 2 implies #[trigger] l[i] == ':' by {
        assert(t[i] == ':');
    }
    assert forall|i: int|
        0 <= i < 17 implies if i % 3 == 2 { l[i] == ':' || l[i] == '-' } else { is_hex_digit(#[trigger] l[i]) } by {
        if i % 3 != 2 {
            let b: int = mac[i / 3] as int;
            assert(0 <= b / 16 < 16 && 0 <= b % 16 < 16) by (nonlinear_arith)
                requires
                    0 <= b < 256,
            ;
            lemma_upper_hex_digit_lower(b / 16);
            lemma_upper_hex_digit_lower(b % 16);
        } else {
            assert(t[i] == ':');
        }
    }
}

/// An upper-case hexadecimal digit stays one in lower case.
proof fn lemma_upper_hex_digit_lower(n: int)
    requires
        0 <= n < 16,
    ensures
        is_hex_digit(ascii_lower_char(upper_hex_digit(n))),
{
}

} // verus!
