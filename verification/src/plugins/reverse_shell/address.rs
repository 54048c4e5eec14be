//! The address codec: dotted-quad text, and the hexadecimal endpoints of
//! the kernel's connection tables.

use super::detector::ReverseShellDetector;
use super::numeral::{
    all_digits, append_decimal, decimal, is_canonical_decimal, is_numeral, lemma_canonical_decimal,
    lemma_decimal_value, numeral_value, parse_numeral, parse_unsigned, unsigned_value,
};
use super::text::{
    chars_of, free_of, joined, lemma_split_first, lemma_split_joined, lemma_split_whole, split,
    split_text, views, Delimiter,
};
use vstd::prelude::*;
use vstd::slice::slice_subrange;
use vstd::string::StringExecFns;

verus! {

/// Why an endpoint of the kernel's connection table could not be read.
#[derive(Clone, Copy, Debug, PartialEq, Eq, Structural)]
pub enum ParseError {
    /// The text is not an address and a port with one `:` between them.
    InvalidFormat,
    /// The address is not eight characters long.
    InvalidAddressLength,
    /// The address holds a character that is no hexadecimal digit.
    InvalidAddressDigit,
    /// The port is not four hexadecimal digits.
    InvalidPort,
}

impl ParseError {
    /// What to tell a reader about an error.
    pub open spec fn text(self) -> Seq<char> {
        match self {
            ParseError::InvalidFormat => "Invalid address:port format"@,
            ParseError::InvalidAddressLength => "Invalid hex address length"@,
            ParseError::InvalidAddressDigit => "Invalid hex address digit"@,
            ParseError::InvalidPort => "Invalid hex port"@,
        }
    }

    /// What to tell a reader about this error.
    pub fn message(&self) -> (text: &'static str)
        ensures
            text@ == self.text(),
    {
        match self {
            ParseError::InvalidFormat => "Invalid address:port format",
            ParseError::InvalidAddressLength => "Invalid hex address length",
            ParseError::InvalidAddressDigit => "Invalid hex address digit",
            ParseError::InvalidPort => "Invalid hex port",
        }
    }
}

/// The address whose four bytes are `a`, `b`, `c`, `d`, most significant
/// first.
pub open spec fn from_octets(a: nat, b: nat, c: nat, d: nat) -> nat {
    a * 0x100_0000 + b * 0x1_0000 + c * 0x100 + d
}

/// Byte `k` of an address, counted from the least significant.
pub open spec fn octet(ip: u32, k: nat) -> nat {
    if k == 0 {
        (ip % 0x100) as nat
    } else if k == 1 {
        ((ip / 0x100) % 0x100) as nat
    } else if k == 2 {
        ((ip / 0x1_0000) % 0x100) as nat
    } else {
        (ip / 0x100_0000) as nat
    }
}

/// An address in dotted-quad notation: its four bytes in decimal, most
/// significant first, with a `.` between them.
pub open spec fn dotted_quad(ip: u32) -> Seq<char> {
    decimal(octet(ip, 3)) + seq!['.'] + decimal(octet(ip, 2)) + seq!['.'] + decimal(octet(ip, 1))
        + seq!['.'] + decimal(octet(ip, 0))
}

/// What one part of a dotted quad counts for: its value where it is an
/// unsigned decimal number of at most 255, zero where it is not.
pub open spec fn octet_or_zero(part: Seq<char>) -> nat {
    match unsigned_value(part, 255) {
        Some(v) => v,
        None => 0,
    }
}

/// The address that a text denotes: where the text has four parts
/// between dots, the address made of what each part counts for; zero for
/// every other text.
pub open spec fn address_value(s: Seq<char>) -> nat {
    let parts = split(s, Delimiter::Char('.'));
    if parts.len() == 4 {
        from_octets(
            octet_or_zero(parts[0]),
            octet_or_zero(parts[1]),
            octet_or_zero(parts[2]),
            octet_or_zero(parts[3]),
        )
    } else {
        0
    }
}

/// Whether `s` is an address in dotted-quad notation as `dotted_quad`
/// writes it: four parts between dots, each a decimal number of at most
/// 255 without a sign or a leading zero.
pub open spec fn is_dotted_quad(s: Seq<char>) -> bool {
    let parts = split(s, Delimiter::Char('.'));
    &&& parts.len() == 4
    &&& forall|i: int|
        0 <= i < 4 ==> is_canonical_decimal(#[trigger] parts[i]) && numeral_value(parts[i], 10)
            <= 255
}

/// Byte `k` of a hexadecimal address, in the order in which the text
/// holds them: the value of its digits `2k` and `2k + 1`.
pub open spec fn hex_byte(s: Seq<char>, k: int) -> nat {
    numeral_value(s.subrange(2 * k, 2 * k + 2), 16)
}

/// The address that eight hexadecimal digits denote. The text holds the
/// four bytes least significant first.
pub open spec fn hex_address(s: Seq<char>) -> Result<nat, ParseError> {
    if s.len() != 8 {
        Err(ParseError::InvalidAddressLength)
    } else if !all_digits(s, 16) {
        Err(ParseError::InvalidAddressDigit)
    } else {
        Ok(from_octets(hex_byte(s, 3), hex_byte(s, 2), hex_byte(s, 1), hex_byte(s, 0)))
    }
}

/// The port that four hexadecimal digits denote, most significant first.
pub open spec fn hex_port(s: Seq<char>) -> Result<nat, ParseError> {
    if s.len() == 4 && all_digits(s, 16) {
        Ok(numeral_value(s, 16))
    } else {
        Err(ParseError::InvalidPort)
    }
}

/// The address and the port that an endpoint of the form `address:port`
/// denotes. A malformed address is reported before a malformed port.
pub open spec fn endpoint(s: Seq<char>) -> Result<(nat, nat), ParseError> {
    let parts = split(s, Delimiter::Char(':'));
    if parts.len() != 2 {
        Err(ParseError::InvalidFormat)
    } else {
        match hex_address(parts[0]) {
            Err(e) => Err(e),
            Ok(addr) => match hex_port(parts[1]) {
                Err(e) => Err(e),
                Ok(port) => Ok((addr, port)),
            },
        }
    }
}

/// A numeral of `k` digits is below the `k`-th power of its radix; here
/// for two and for four hexadecimal digits.
pub proof fn lemma_hex_bound(s: Seq<char>)
    requires
        all_digits(s, 16),
        s.len() <= 4,
    ensures
        s.len() <= 2 ==> numeral_value(s, 16) < 0x100,
        numeral_value(s, 16) < 0x1_0000,
        s.len() == 0 ==> numeral_value(s, 16) == 0,
        s.len() == 1 ==> numeral_value(s, 16) < 0x10,
        s.len() == 3 ==> numeral_value(s, 16) < 0x1000,
    decreases s.len(),
{
    if s.len() > 0 {
        let head = s.drop_last();
        assert forall|i: int| 0 <= i < head.len() implies super::numeral::is_digit(
            #[trigger] head[i],
            16,
        ) by {
            assert(head[i] == s[i]);
        }
        lemma_hex_bound(head);
        assert(super::numeral::is_digit(s.last(), 16));
    }
}

/// The four bytes of an address make the address.
pub proof fn lemma_octets(ip: u32)
    ensures
        from_octets(octet(ip, 3), octet(ip, 2), octet(ip, 1), octet(ip, 0)) == ip,
        forall|k: nat| #[trigger] octet(ip, k) <= 255,
{
    assert((ip / 0x100_0000) * 0x100_0000 + ((ip / 0x1_0000) % 0x100) * 0x1_0000 + ((ip / 0x100)
        % 0x100) * 0x100 + ip % 0x100 == ip && ip / 0x100_0000 <= 255) by (bit_vector);
}

/// Four bytes are the bytes of the address that they make.
pub proof fn lemma_from_octets(a: nat, b: nat, c: nat, d: nat)
    requires
        a <= 255,
        b <= 255,
        c <= 255,
        d <= 255,
    ensures
        from_octets(a, b, c, d) <= u32::MAX,
        octet(from_octets(a, b, c, d) as u32, 3) == a,
        octet(from_octets(a, b, c, d) as u32, 2) == b,
        octet(from_octets(a, b, c, d) as u32, 1) == c,
        octet(from_octets(a, b, c, d) as u32, 0) == d,
{
    let (x, y, z, w) = (a as u32, b as u32, c as u32, d as u32);
    let n = from_octets(a, b, c, d) as u32;
    assert(n / 0x100_0000 == x && (n / 0x1_0000) % 0x100 == y && (n / 0x100) % 0x100 == z && n
        % 0x100 == w) by (bit_vector)
        requires
            x <= 255,
            y <= 255,
            z <= 255,
            w <= 255,
            n == x * 0x100_0000 + y * 0x1_0000 + z * 0x100 + w,
    ;
}

impl ReverseShellDetector {
    /// Reads an address in dotted-quad notation. Each of the four parts
    /// that is no decimal number of at most 255 counts as zero, and a
    /// text that does not have four parts gives the address zero.
    pub fn ip_to_u32(ip: &str) -> (addr: u32)
        ensures
            addr == address_value(ip@),
    {
        let chars = chars_of(ip);
        let parts = split_text(chars.as_slice(), Delimiter::Char('.'));
        if parts.len() == 4 {
            let a = Self::octet_of(parts[0]);
            let b = Self::octet_of(parts[1]);
            let c = Self::octet_of(parts[2]);
            let d = Self::octet_of(parts[3]);
            proof {
                let shown = views(parts@);
                assert(shown[0] == parts@[0]@ && shown[1] == parts@[1]@ && shown[2] == parts@[2]@
                    && shown[3] == parts@[3]@);
                assert((a << 24 | b << 16 | c << 8 | d) == a * 0x100_0000 + b * 0x1_0000 + c
                    * 0x100 + d) by (bit_vector)
                    requires
                        a <= 255,
                        b <= 255,
                        c <= 255,
                        d <= 255,
                ;
            }
            (a << 24) | (b << 16) | (c << 8) | d
        } else {
            0
        }
    }

    /// What one part of a dotted quad counts for.
    fn octet_of(part: &[char]) -> (v: u32)
        ensures
            v == octet_or_zero(part@),
            v <= 255,
    {
        match parse_unsigned(part, 255) {
            Some(v) => v as u32,
            None => 0,
        }
    }

    /// Writes an address in dotted-quad notation.
    pub fn u32_to_ip(ip_u32: u32) -> (text: String)
        ensures
            text@ == dotted_quad(ip_u32),
    {
        let mut text = String::new();
        proof {
            reveal_strlit(".");
            assert((ip_u32 >> 24) & 0xFF == ip_u32 / 0x100_0000) by (bit_vector);
            assert((ip_u32 >> 16) & 0xFF == (ip_u32 / 0x1_0000) % 0x100) by (bit_vector);
            assert((ip_u32 >> 8) & 0xFF == (ip_u32 / 0x100) % 0x100) by (bit_vector);
            assert(ip_u32 & 0xFF == ip_u32 % 0x100) by (bit_vector);
        }
        append_decimal(&mut text, ((ip_u32 >> 24) & 0xFF) as u64);
        text.append(".");
        append_decimal(&mut text, ((ip_u32 >> 16) & 0xFF) as u64);
        text.append(".");
        append_decimal(&mut text, ((ip_u32 >> 8) & 0xFF) as u64);
        text.append(".");
        append_decimal(&mut text, (ip_u32 & 0xFF) as u64);
        proof {
            assert(text@ =~= dotted_quad(ip_u32));
        }
        text
    }

    /// Reads an address as the kernel's connection tables write it:
    /// eight hexadecimal digits that hold the four bytes of the address
    /// least significant first.
    pub fn hex_to_ip_u32(hex: &str) -> (r: Result<u32, ParseError>)
        ensures
            r matches Ok(addr) ==> hex_address(hex@) == Ok::<nat, ParseError>(addr as nat),
            r matches Err(e) ==> hex_address(hex@) == Err::<nat, ParseError>(e),
    {
        let chars = chars_of(hex);
        Self::hex_address_of(chars.as_slice())
    }

    /// Reads an endpoint of the kernel's connection tables: an address
    /// of eight hexadecimal digits, a `:`, and a port of four
    /// hexadecimal digits.
    pub fn parse_addr_port(addr_port: &str) -> (r: Result<(u32, u16), ParseError>)
        ensures
            r matches Ok(pair) ==> endpoint(addr_port@) == Ok::<(nat, nat), ParseError>(
                (pair.0 as nat, pair.1 as nat),
            ),
            r matches Err(e) ==> endpoint(addr_port@) == Err::<(nat, nat), ParseError>(e),
    {
        let chars = chars_of(addr_port);
        Self::endpoint_of(chars.as_slice())
    }

    /// `hex_to_ip_u32` on characters.
    pub(crate) fn hex_address_of(hex: &[char]) -> (r: Result<u32, ParseError>)
        ensures
            r matches Ok(addr) ==> hex_address(hex@) == Ok::<nat, ParseError>(addr as nat),
            r matches Err(e) ==> hex_address(hex@) == Err::<nat, ParseError>(e),
    {
        if hex.len() != 8 {
            return Err(ParseError::InvalidAddressLength);
        }
        let mut bytes: [u32; 4] = [0, 0, 0, 0];
        let mut k: usize = 0;
        while k < 4
            invariant
                hex@.len() == 8,
                0 <= k <= 4,
                all_digits(hex@.take(2 * k), 16),
                forall|j: int| 0 <= j < k ==> bytes[j] == hex_byte(hex@, j),
                forall|j: int| 0 <= j < k ==> bytes[j] <= 255,
            decreases 4 - k,
        {
            let pair = slice_subrange(hex, 2 * k, 2 * k + 2);
            match parse_numeral(pair, 16, 255) {
                Some(v) => {
                    proof {
                        assert forall|j: int| 0 <= j < 2 * k + 2 implies super::numeral::is_digit(
                            #[trigger] hex@.take(2 * k + 2)[j],
                            16,
                        ) by {
                            if j < 2 * k {
                                assert(hex@.take(2 * k)[j] == hex@[j]);
                            } else {
                                assert(pair@[j - 2 * k] == hex@[j]);
                            }
                        }
                    }
                    bytes[k] = v as u32;
                },
                None => {
                    proof {
                        if all_digits(hex@, 16) {
                            assert forall|j: int| 0 <= j < 2 implies super::numeral::is_digit(
                                #[trigger] pair@[j],
                                16,
                            ) by {
                                assert(pair@[j] == hex@[2 * k + j]);
                            }
                            lemma_hex_bound(pair@);
                        }
                    }
                    return Err(ParseError::InvalidAddressDigit);
                },
            }
            k += 1;
        }
        let (b0, b1, b2, b3) = (bytes[0], bytes[1], bytes[2], bytes[3]);
        proof {
            assert(hex@.take(8) =~= hex@);
            assert((b3 << 24 | b2 << 16 | b1 << 8 | b0) == b3 * 0x100_0000 + b2 * 0x1_0000 + b1
                * 0x100 + b0) by (bit_vector)
                requires
                    b0 <= 255,
                    b1 <= 255,
                    b2 <= 255,
                    b3 <= 255,
            ;
        }
        Ok((b3 << 24) | (b2 << 16) | (b1 << 8) | b0)
    }

    /// `parse_addr_port` on characters.
    pub(crate) fn endpoint_of(addr_port: &[char]) -> (r: Result<(u32, u16), ParseError>)
        ensures
            r matches Ok(pair) ==> endpoint(addr_port@) == Ok::<(nat, nat), ParseError>(
                (pair.0 as nat, pair.1 as nat),
            ),
            r matches Err(e) ==> endpoint(addr_port@) == Err::<(nat, nat), ParseError>(e),
    {
        let parts = split_text(addr_port, Delimiter::Char(':'));
        if parts.len() != 2 {
            return Err(ParseError::InvalidFormat);
        }
        proof {
            let shown = views(parts@);
            assert(shown[0] == parts@[0]@ && shown[1] == parts@[1]@);
        }
        let addr = match Self::hex_address_of(parts[0]) {
            Ok(addr) => addr,
            Err(e) => {
                return Err(e);
            },
        };
        let digits = parts[1];
        if digits.len() != 4 {
            return Err(ParseError::InvalidPort);
        }
        match parse_numeral(digits, 16, 0xFFFF) {
            Some(port) => Ok((addr, port as u16)),
            None => {
                proof {
                    if all_digits(digits@, 16) {
                        lemma_hex_bound(digits@);
                    }
                }
                Err(ParseError::InvalidPort)
            },
        }
    }
}

/// A decimal numeral holds no dot and does not start with a sign.
pub proof fn lemma_decimal_plain(s: Seq<char>)
    requires
        is_numeral(s, 10),
    ensures
        free_of(s, Delimiter::Char('.')),
        s[0] != '+',
        unsigned_value(s, 255) == if numeral_value(s, 10) <= 255 {
            Some(numeral_value(s, 10))
        } else {
            None
        },
{
    assert(super::numeral::is_digit(s[0], 10));
    assert forall|i: int| 0 <= i < s.len() implies !Delimiter::Char('.').matches(
        #[trigger] s[i],
    ) by {
        assert(super::numeral::is_digit(s[i], 10));
    }
}

/// Reading what `u32_to_ip` writes gives the address back, and what it
/// writes is a dotted quad.
pub proof fn lemma_address_round_trip(ip: u32)
    ensures
        is_dotted_quad(dotted_quad(ip)),
        address_value(dotted_quad(ip)) == ip,
{
    let dot = Delimiter::Char('.');
    let a = decimal(octet(ip, 3));
    let b = decimal(octet(ip, 2));
    let c = decimal(octet(ip, 1));
    let d = decimal(octet(ip, 0));
    lemma_octets(ip);
    lemma_decimal_value(octet(ip, 3));
    lemma_decimal_value(octet(ip, 2));
    lemma_decimal_value(octet(ip, 1));
    lemma_decimal_value(octet(ip, 0));
    lemma_decimal_plain(a);
    lemma_decimal_plain(b);
    lemma_decimal_plain(c);
    lemma_decimal_plain(d);
    let tail1 = c + seq!['.'] + d;
    let tail2 = b + seq!['.'] + tail1;
    let s = dotted_quad(ip);
    assert(s =~= a + seq!['.'] + tail2);
    lemma_split_whole(d, dot);
    lemma_split_first(c, '.', d, dot);
    lemma_split_first(b, '.', tail1, dot);
    lemma_split_first(a, '.', tail2, dot);
    let parts = split(s, dot);
    assert(parts =~= seq![a, b, c, d]);
    assert(parts[0] == a && parts[1] == b && parts[2] == c && parts[3] == d);
}

/// Writing the address that a dotted quad denotes gives the text back.
pub proof fn lemma_text_round_trip(s: Seq<char>)
    requires
        is_dotted_quad(s),
    ensures
        address_value(s) <= u32::MAX,
        dotted_quad(address_value(s) as u32) == s,
{
    let dot = Delimiter::Char('.');
    let parts = split(s, dot);
    let a = parts[0];
    let b = parts[1];
    let c = parts[2];
    let d = parts[3];
    lemma_decimal_plain(a);
    lemma_decimal_plain(b);
    lemma_decimal_plain(c);
    lemma_decimal_plain(d);
    lemma_canonical_decimal(a);
    lemma_canonical_decimal(b);
    lemma_canonical_decimal(c);
    lemma_canonical_decimal(d);
    lemma_from_octets(
        numeral_value(a, 10),
        numeral_value(b, 10),
        numeral_value(c, 10),
        numeral_value(d, 10),
    );
    lemma_split_joined(s, '.');
    let sep = seq!['.'];
    let three = parts.drop_last();
    let two = three.drop_last();
    let one = two.drop_last();
    assert(one.len() == 1 && one[0] == a);
    assert(two.last() == b && three.last() == c && parts.last() == d);
    assert(joined(one, sep) == a);
    assert(joined(two, sep) == a + sep + b);
    assert(joined(three, sep) == a + sep + b + sep + c);
    assert(joined(parts, sep) == a + sep + b + sep + c + sep + d);
}

} // verus!
