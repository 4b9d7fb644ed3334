//! Validated six-byte hardware addresses and their textual forms.

use vstd::prelude::*;

verus! {

/// Why a textual hardware address was rejected.
#[derive(Debug, PartialEq, Eq, Structural, Clone, Copy)]
pub enum MacAddressError {
    /// The text is not exactly 17 characters long.
    Length,
    /// An octet is not two hexadecimal digits, or a later separator
    /// does not repeat the one chosen after the first octet.
    Format,
    /// The character after the first octet is neither `:` nor `-`.
    Separator,
}

impl MacAddressError {
    /// The text shown for this rejection.
    pub fn message(&self) -> (r: &'static str)
        ensures
            match *self {
                MacAddressError::Length => r@ == "invalid mac address length"@,
                MacAddressError::Format => r@ == "invalid mac address format"@,
                MacAddressError::Separator => r@
                    == "invalid mac address separator (should be ':' or '-')"@,
            },
    {
        match *self {
            MacAddressError::Length => "invalid mac address length",
            MacAddressError::Format => "invalid mac address format",
            MacAddressError::Separator => "invalid mac address separator (should be ':' or '-')",
        }
    }
}

/// One of the two characters accepted between octets.
pub open spec fn is_mac_sep(c: char) -> bool {
    c == ':' || c == '-'
}

/// A hexadecimal digit, either case.
pub open spec fn is_hex_digit(c: char) -> bool {
    ('0' <= c && c <= '9') || ('a' <= c && c <= 'f') || ('A' <= c && c <= 'F')
}

/// The numeric value of a hexadecimal digit.
pub open spec fn hex_digit_value(c: char) -> u8
    recommends
        is_hex_digit(c),
{
    if '0' <= c && c <= '9' {
        (c as u32 - '0' as u32) as u8
    } else if 'a' <= c && c <= 'f' {
        (c as u32 - 'a' as u32 + 10) as u8
    } else {
        (c as u32 - 'A' as u32 + 10) as u8
    }
}

/// A well-formed address text: six octets of two hexadecimal digits,
/// uniformly joined by the separator that stands at position 2.
pub open spec fn mac_text_ok(s: Seq<char>) -> bool {
    &&& s.len() == 17
    &&& is_mac_sep(s[2])
    &&& s[5] == s[2] && s[8] == s[2] && s[11] == s[2] && s[14] == s[2]
    &&& is_hex_digit(s[0]) && is_hex_digit(s[1])
    &&& is_hex_digit(s[3]) && is_hex_digit(s[4])
    &&& is_hex_digit(s[6]) && is_hex_digit(s[7])
    &&& is_hex_digit(s[9]) && is_hex_digit(s[10])
    &&& is_hex_digit(s[12]) && is_hex_digit(s[13])
    &&& is_hex_digit(s[15]) && is_hex_digit(s[16])
}

/// Octet number `k` of a well-formed address text.
pub open spec fn mac_text_byte(s: Seq<char>, k: int) -> u8
    recommends
        mac_text_ok(s),
        0 <= k < 6,
{
    (hex_digit_value(s[3 * k]) * 16 + hex_digit_value(s[3 * k + 1])) as u8
}

/// All six octets of a well-formed address text.
pub open spec fn mac_text_bytes(s: Seq<char>) -> Seq<u8> {
    Seq::new(6, |k: int| mac_text_byte(s, k))
}

/// The outcome that parsing owes for every input text: length is checked
/// first, then the separator after the first octet, then the rest of the
/// pattern.
pub open spec fn mac_parse_result(s: Seq<char>) -> Result<Seq<u8>, MacAddressError> {
    if s.len() != 17 {
        Err(MacAddressError::Length)
    } else if !is_mac_sep(s[2]) {
        Err(MacAddressError::Separator)
    } else if !mac_text_ok(s) {
        Err(MacAddressError::Format)
    } else {
        Ok(mac_text_bytes(s))
    }
}

/// A validated six-byte hardware address.
#[derive(Debug)]
pub struct MacAddress([u8; 6]);

impl View for MacAddress {
    type V = Seq<u8>;

    closed spec fn view(&self) -> Seq<u8> {
        self.0@
    }
}

/// An address always views as exactly its six octets.
pub proof fn lemma_mac_address_len(m: &MacAddress)
    ensures
        m@.len() == 6,
{
}

/// The numeric value of one hexadecimal digit, or `None` for any other
/// character.
fn hex_val(c: char) -> (r: Option<u8>)
    ensures
        match r {
            Some(v) => is_hex_digit(c) && v == hex_digit_value(c) && v < 16,
            None => !is_hex_digit(c),
        },
{
    if '0' <= c && c <= '9' {
        Some((c as u32 - '0' as u32) as u8)
    } else if 'a' <= c && c <= 'f' {
        Some((c as u32 - 'a' as u32 + 10) as u8)
    } else if 'A' <= c && c <= 'F' {
        Some((c as u32 - 'A' as u32 + 10) as u8)
    } else {
        None
    }
}

/// Octet number `k` of a 17-character address text, when both of its
/// characters are hexadecimal digits.
fn octet(s: &str, k: usize) -> (r: Option<u8>)
    requires
        s@.len() == 17,
        k < 6,
    ensures
        match r {
            Some(b) => is_hex_digit(s@[3 * k as int]) && is_hex_digit(s@[3 * k as int + 1])
                && b == mac_text_byte(s@, k as int),
            None => !(is_hex_digit(s@[3 * k as int]) && is_hex_digit(s@[3 * k as int + 1])),
        },
{
    let hi = hex_val(s.get_char(3 * k));
    let lo = hex_val(s.get_char(3 * k + 1));
    match (hi, lo) {
        (Some(h), Some(l)) => Some(h * 16 + l),
        _ => None,
    }
}

impl MacAddress {
    /// Parses an address text such as `00:01:02:03:04:05` or
    /// `00-01-02-03-04-05`.
    pub fn try_from(mac: &str) -> (r: Result<MacAddress, MacAddressError>)
        ensures
            match r {
                Ok(m) => mac_parse_result(mac@) == Ok::<Seq<u8>, MacAddressError>(m@),
                Err(e) => mac_parse_result(mac@) == Err::<Seq<u8>, MacAddressError>(e),
            },
    {
        let n = mac.unicode_len();
        if n != 17 {
            return Err(MacAddressError::Length);
        }
        let sep = mac.get_char(2);
        if !(sep == ':' || sep == '-') {
            return Err(MacAddressError::Separator);
        }
        if !(mac.get_char(5) == sep && mac.get_char(8) == sep && mac.get_char(11) == sep
            && mac.get_char(14) == sep) {
            return Err(MacAddressError::Format);
        }
        let b0 = octet(mac, 0);
        let b1 = octet(mac, 1);
        let b2 = octet(mac, 2);
        let b3 = octet(mac, 3);
        let b4 = octet(mac, 4);
        let b5 = octet(mac, 5);
        match (b0, b1, b2, b3, b4, b5) {
            (Some(v0), Some(v1), Some(v2), Some(v3), Some(v4), Some(v5)) => {
                let m = MacAddress([v0, v1, v2, v3, v4, v5]);
                proof {
                    assert(m@ =~= mac_text_bytes(mac@));
                }
                Ok(m)
            },
            _ => Err(MacAddressError::Format),
        }
    }

    /// The six octets of the address.
    pub fn as_bytes(&self) -> (r: [u8; 6])
        ensures
            r@ == self@,
    {
        self.0
    }

    /// The canonical text of the address: lower-case hexadecimal octets
    /// joined by `:`, whatever form was parsed.
    pub fn to_string(&self) -> (r: String)
        ensures
            r@ == mac_display(self@),
    {
        let mut out = String::new();
        out.append(hex_str(self.0[0] / 16));
        out.append(hex_str(self.0[0] % 16));
        out.append(":");
        out.append(hex_str(self.0[1] / 16));
        out.append(hex_str(self.0[1] % 16));
        out.append(":");
        out.append(hex_str(self.0[2] / 16));
        out.append(hex_str(self.0[2] % 16));
        out.append(":");
        out.append(hex_str(self.0[3] / 16));
        out.append(hex_str(self.0[3] % 16));
        out.append(":");
        out.append(hex_str(self.0[4] / 16));
        out.append(hex_str(self.0[4] % 16));
        out.append(":");
        out.append(hex_str(self.0[5] / 16));
        out.append(hex_str(self.0[5] % 16));
        proof {
            reveal_strlit(":");
            assert(out@ =~= mac_display(self@));
        }
        out
    }
}

impl Clone for MacAddress {
    fn clone(&self) -> (r: Self)
        ensures
            r == *self,
    {
        MacAddress(self.0)
    }
}

impl PartialEq for MacAddress {
    fn eq(&self, other: &Self) -> (r: bool)
    {
        let r = self.0[0] == other.0[0] && self.0[1] == other.0[1] && self.0[2] == other.0[2]
            && self.0[3] == other.0[3] && self.0[4] == other.0[4] && self.0[5] == other.0[5];
        proof {
            if r {
                assert(self.0@ =~= other.0@);
            }
        }
        r
    }
}

impl vstd::std_specs::cmp::PartialEqSpecImpl for MacAddress {
    open spec fn obeys_eq_spec() -> bool {
        true
    }

    open spec fn eq_spec(&self, other: &Self) -> bool {
        self@ == other@
    }
}

impl Eq for MacAddress {

}

/// The lower-case hexadecimal character for a value below 16.
pub open spec fn hex_char_of(v: u8) -> char
    recommends
        v < 16,
{
    if v == 0 { '0' } else if v == 1 { '1' } else if v == 2 { '2' } else if v == 3 { '3' }
    else if v == 4 { '4' } else if v == 5 { '5' } else if v == 6 { '6' } else if v == 7 { '7' }
    else if v == 8 { '8' } else if v == 9 { '9' } else if v == 10 { 'a' } else if v == 11 { 'b' }
    else if v == 12 { 'c' } else if v == 13 { 'd' } else if v == 14 { 'e' } else { 'f' }
}

/// The canonical 17-character text of six octets.
pub open spec fn mac_display(b: Seq<u8>) -> Seq<char>
    recommends
        b.len() == 6,
{
    seq![
        hex_char_of(b[0] / 16), hex_char_of(b[0] % 16), ':',
        hex_char_of(b[1] / 16), hex_char_of(b[1] % 16), ':',
        hex_char_of(b[2] / 16), hex_char_of(b[2] % 16), ':',
        hex_char_of(b[3] / 16), hex_char_of(b[3] % 16), ':',
        hex_char_of(b[4] / 16), hex_char_of(b[4] % 16), ':',
        hex_char_of(b[5] / 16), hex_char_of(b[5] % 16),
    ]
}

/// A one-character string holding the lower-case hexadecimal character of
/// a value below 16.
fn hex_str(v: u8) -> (r: &'static str)
    requires
        v < 16,
    ensures
        r@ =~= seq![hex_char_of(v)],
{
    proof {
        reveal_strlit("0");
        reveal_strlit("1");
        reveal_strlit("2");
        reveal_strlit("3");
        reveal_strlit("4");
        reveal_strlit("5");
        reveal_strlit("6");
        reveal_strlit("7");
        reveal_strlit("8");
        reveal_strlit("9");
        reveal_strlit("a");
        reveal_strlit("b");
        reveal_strlit("c");
        reveal_strlit("d");
        reveal_strlit("e");
        reveal_strlit("f");
    }
    if v == 0 { "0" } else if v == 1 { "1" } else if v == 2 { "2" } else if v == 3 { "3" }
    else if v == 4 { "4" } else if v == 5 { "5" } else if v == 6 { "6" } else if v == 7 { "7" }
    else if v == 8 { "8" } else if v == 9 { "9" } else if v == 10 { "a" } else if v == 11 { "b" }
    else if v == 12 { "c" } else if v == 13 { "d" } else if v == 14 { "e" } else { "f" }
}

/// Every character of the canonical text is a hexadecimal digit or `:`,
/// so none of them is a space or a line break.
pub proof fn lemma_mac_display_chars(b: Seq<u8>)
    requires
        b.len() == 6,
    ensures
        mac_display(b).len() == 17,
        forall|i: int| 0 <= i < 17 ==> mac_display(b)[i] != ' ' && mac_display(b)[i] != '\n',
{
    let d = mac_display(b);
    assert forall|i: int| 0 <= i < 17 implies d[i] != ' ' && d[i] != '\n' by {
        assert(d[2] == ':' && d[5] == ':' && d[8] == ':' && d[11] == ':' && d[14] == ':');
    }
}

/// The hexadecimal character of a value below 16 is a hexadecimal digit,
/// and reads back as that value.
proof fn lemma_hex_char_of_value(v: u8)
    requires
        v < 16,
    ensures
        is_hex_digit(hex_char_of(v)),
        hex_digit_value(hex_char_of(v)) == v,
{
}

/// Parsing the canonical text of six octets gives back exactly those
/// octets.
pub proof fn lemma_mac_display_parses(b: Seq<u8>)
    requires
        b.len() == 6,
    ensures
        mac_parse_result(mac_display(b)) == Ok::<Seq<u8>, MacAddressError>(b),
{
    let d = mac_display(b);
    assert forall|k: int| 0 <= k < 6 implies is_hex_digit(d[3 * k]) && is_hex_digit(d[3 * k + 1])
        && hex_digit_value(d[3 * k]) == b[k] / 16 && hex_digit_value(d[3 * k + 1]) == b[k] % 16 by {
        lemma_hex_char_of_value(b[k] / 16);
        lemma_hex_char_of_value(b[k] % 16);
    }
    assert(mac_text_ok(d));
    assert forall|k: int| 0 <= k < 6 implies mac_text_byte(d, k) == b[k] by {
        assert(hex_digit_value(d[3 * k]) * 16 + hex_digit_value(d[3 * k + 1]) == (b[k] / 16) * 16
            + b[k] % 16);
    }
    assert(mac_text_bytes(d) =~= b);
}

} // verus!
