use vstd::prelude::*;

use crate::text::{split, split_at_char, views};

verus! {

/// Separator between the octets of a textual MAC address.
pub const MAC_SEPARATOR: char = ':';

/// Number of bytes in a MAC address.
pub const MAC_SIZE_BYTES: usize = 6;

/// How many times the MAC address is repeated in a magic packet.
pub const MAC_PER_PACKET: usize = 16;

/// Total size of a magic packet: a 6-byte header and 16 copies of the MAC.
pub const PACKET_SIZE_BYTES: usize = 102;

/// The magic packet for a 6-byte MAC: six `0xFF` bytes, then the MAC repeated
/// sixteen times.
pub open spec fn magic_packet(mac: Seq<u8>) -> Seq<u8>
    recommends
        mac.len() == 6,
{
    Seq::new(102, |i: int| if i < 6 { 0xFFu8 } else { mac[(i - 6) % 6] })
}

/// The value of a hexadecimal digit, in either case.
pub open spec fn hex_value(c: char) -> Option<u8> {
    if '0' <= c <= '9' {
        Some((c as u32 - '0' as u32) as u8)
    } else if 'a' <= c <= 'f' {
        Some((c as u32 - 'a' as u32 + 10) as u8)
    } else if 'A' <= c <= 'F' {
        Some((c as u32 - 'A' as u32 + 10) as u8)
    } else {
        None
    }
}

/// The byte written by a token of exactly two hexadecimal digits.
pub open spec fn hex_byte(t: Seq<char>) -> Option<u8> {
    if t.len() == 2 && hex_value(t[0]) is Some && hex_value(t[1]) is Some {
        Some((hex_value(t[0])->0 * 16 + hex_value(t[1])->0) as u8)
    } else {
        None
    }
}

/// Reads each token as a hex byte; fails with the first token that is not one.
pub open spec fn hex_bytes(tokens: Seq<Seq<char>>) -> Result<Seq<u8>, Seq<char>>
    decreases tokens.len(),
{
    if tokens.len() == 0 {
        Ok(Seq::empty())
    } else {
        match hex_bytes(tokens.drop_last()) {
            Err(t) => Err(t),
            Ok(bytes) => match hex_byte(tokens.last()) {
                Some(b) => Ok(bytes.push(b)),
                None => Err(tokens.last()),
            },
        }
    }
}

/// Why a textual MAC address was rejected.
#[derive(Debug, Clone, PartialEq, Eq)]
pub enum InvalidMacFormat {
    /// A colon-separated token is not two hexadecimal digits.
    InvalidToken(String),
    /// Every token is a hex byte, but there are not six of them; carries the
    /// length of the whole MAC text.
    WrongSize(usize),
}

/// The mathematical form of [`InvalidMacFormat`].
pub enum MacFault {
    InvalidToken(Seq<char>),
    WrongSize(nat),
}

impl View for InvalidMacFormat {
    type V = MacFault;

    open spec fn view(&self) -> MacFault {
        match self {
            InvalidMacFormat::InvalidToken(t) => MacFault::InvalidToken(t@),
            InvalidMacFormat::WrongSize(n) => MacFault::WrongSize(*n as nat),
        }
    }
}

/// What parsing a textual MAC address yields: its six bytes, or the fault.
/// A wrong number of tokens is reported with the length of the text; by then
/// every character is ASCII, so that is also its length in bytes.
pub open spec fn parse_mac_spec(s: Seq<char>) -> Result<Seq<u8>, MacFault> {
    match hex_bytes(split(s, MAC_SEPARATOR)) {
        Err(t) => Err(MacFault::InvalidToken(t)),
        Ok(bytes) => if bytes.len() == MAC_SIZE_BYTES {
            Ok(bytes)
        } else {
            Err(MacFault::WrongSize(s.len()))
        },
    }
}

/// Value of one hexadecimal digit.
fn hex_digit(c: char) -> (r: Option<u8>)
    ensures
        r == hex_value(c),
{
    if '0' <= c && c <= '9' {
        Some((c as u32 - '0' as u32) as u8)
    } else if 'a' <= c && c <= 'f' {
        Some((c as u32 - 'a' as u32 + 10) as u8)
    } else if 'A' <= c && c <= 'F' {
        Some((c as u32 - 'A' as u32 + 10) as u8)
    } else {
        None
    }
}

/// Reads a token of exactly two hexadecimal digits.
fn parse_hex_byte(t: &str) -> (r: Option<u8>)
    ensures
        r == hex_byte(t@),
{
    if t.unicode_len() != 2 {
        return None;
    }
    let hi = hex_digit(t.get_char(0));
    let lo = hex_digit(t.get_char(1));
    match (hi, lo) {
        (Some(h), Some(l)) => Some(h * 16 + l),
        _ => None,
    }
}

/// A failure on a prefix of the tokens is the failure on all of them.
proof fn lemma_hex_bytes_prefix_err(tokens: Seq<Seq<char>>, k: int)
    requires
        0 <= k <= tokens.len(),
        hex_bytes(tokens.subrange(0, k)) is Err,
    ensures
        hex_bytes(tokens) == hex_bytes(tokens.subrange(0, k)),
    decreases tokens.len() - k,
{
    if k < tokens.len() {
        assert(tokens.subrange(0, k + 1).drop_last() =~= tokens.subrange(0, k));
        lemma_hex_bytes_prefix_err(tokens, k + 1);
    } else {
        assert(tokens.subrange(0, k) =~= tokens);
    }
}

/// Reading tokens succeeds exactly when every token is a hex byte, and then
/// yields one byte per token.
proof fn lemma_hex_bytes(tokens: Seq<Seq<char>>)
    ensures
        hex_bytes(tokens) is Ok <==> forall|i: int|
            0 <= i < tokens.len() ==> #[trigger] hex_byte(tokens[i]) is Some,
        hex_bytes(tokens) matches Ok(bytes) ==> bytes.len() == tokens.len() && forall|i: int|
            0 <= i < tokens.len() ==> #[trigger] hex_byte(tokens[i]) == Some(bytes[i]),
    decreases tokens.len(),
{
    if tokens.len() > 0 {
        let prefix = tokens.drop_last();
        lemma_hex_bytes(prefix);
        assert forall|i: int| 0 <= i < prefix.len() implies tokens[i] == prefix[i] by {}
        if hex_bytes(tokens) is Err && forall|i: int|
            0 <= i < tokens.len() ==> #[trigger] hex_byte(tokens[i]) is Some {
            assert(hex_byte(tokens[tokens.len() - 1]) is Some);
            assert forall|i: int| 0 <= i < prefix.len() implies #[trigger] hex_byte(prefix[i]) is Some by {
                assert(hex_byte(tokens[i]) is Some);
            }
        }
    }
}

/// Every well-formed MAC is accepted, and every other text is rejected: a MAC
/// parses exactly when it has six colon-separated tokens that are each two hex
/// digits, and then its bytes are those tokens read in order.
pub proof fn lemma_parse_mac_accepts_exactly_valid(s: Seq<char>)
    ensures
        parse_mac_spec(s) is Ok <==> (split(s, MAC_SEPARATOR).len() == MAC_SIZE_BYTES && forall|
            i: int,
        | 0 <= i < split(s, MAC_SEPARATOR).len() ==> #[trigger] hex_byte(
            split(s, MAC_SEPARATOR)[i],
        ) is Some),
        parse_mac_spec(s) matches Ok(bytes) ==> bytes.len() == MAC_SIZE_BYTES && forall|i: int|
            0 <= i < MAC_SIZE_BYTES ==> Some(#[trigger] bytes[i]) == hex_byte(
                split(s, MAC_SEPARATOR)[i],
            ),
{
    lemma_hex_bytes(split(s, MAC_SEPARATOR));
}

/// The packet of a valid MAC is 102 bytes: six `0xFF` bytes, then sixteen
/// verbatim copies of the six MAC bytes.
pub proof fn lemma_magic_packet_layout(mac: Seq<u8>)
    requires
        mac.len() == MAC_SIZE_BYTES,
    ensures
        magic_packet(mac).len() == PACKET_SIZE_BYTES,
        forall|i: int| 0 <= i < 6 ==> #[trigger] magic_packet(mac)[i] == 0xFF,
        forall|k: int, j: int|
            0 <= k < MAC_PER_PACKET && 0 <= j < MAC_SIZE_BYTES ==> #[trigger] magic_packet(
                mac,
            )[6 + 6 * k + j] == mac[j],
{
    assert forall|k: int, j: int|
        0 <= k < MAC_PER_PACKET && 0 <= j < MAC_SIZE_BYTES implies #[trigger] magic_packet(
            mac,
        )[6 + 6 * k + j] == mac[j] by {
        assert((6 + 6 * k + j - 6) % 6 == j && 6 + 6 * k + j < 102) by (nonlinear_arith)
            requires
                0 <= k < 16,
                0 <= j < 6,
        ;
    }
}

/// A ready-to-send Wake-on-LAN magic packet.
pub struct Wol {
    packet: Vec<u8>,
}

impl View for Wol {
    type V = Seq<u8>;

    closed spec fn view(&self) -> Seq<u8> {
        self.packet@
    }
}

impl Wol {
    /// Parses a MAC such as `AA:BB:CC:DD:EE:FF` and builds its magic packet.
    pub fn from_str(mac_address: &str) -> (r: Result<Wol, InvalidMacFormat>)
        ensures
            match parse_mac_spec(mac_address@) {
                Ok(bytes) => r is Ok && r->Ok_0@ == magic_packet(bytes),
                Err(fault) => r is Err && r->Err_0@ == fault,
            },
    {
        let parsed_mac = Self::parse_mac(mac_address)?;
        let packet = Self::build_packet(parsed_mac.as_slice());
        Ok(Wol { packet })
    }

    /// The bytes of the packet.
    pub fn packet(&self) -> (r: &Vec<u8>)
        ensures
            r@ == self@,
    {
        &self.packet
    }

    /// Parses six colon-separated two-digit hex octets. A token that is not a
    /// hex byte is reported before a wrong number of tokens.
    pub fn parse_mac(mac_address: &str) -> (r: Result<Vec<u8>, InvalidMacFormat>)
        ensures
            match parse_mac_spec(mac_address@) {
                Ok(bytes) => r is Ok && r->Ok_0@ == bytes,
                Err(fault) => r is Err && r->Err_0@ == fault,
            },
    {
        let tokens = split_at_char(mac_address, MAC_SEPARATOR);
        let ghost toks = views(tokens@);
        let mut bytes: Vec<u8> = Vec::new();
        let mut i: usize = 0;
        while i < tokens.len()
            invariant
                toks == views(tokens@),
                toks == split(mac_address@, MAC_SEPARATOR),
                i <= tokens.len(),
                hex_bytes(toks.subrange(0, i as int)) == Ok::<Seq<u8>, Seq<char>>(bytes@),
            decreases tokens.len() - i,
        {
            assert(toks.subrange(0, i + 1).drop_last() =~= toks.subrange(0, i as int));
            match parse_hex_byte(tokens[i].as_str()) {
                Some(b) => bytes.push(b),
                None => {
                    proof {
                        lemma_hex_bytes_prefix_err(toks, i + 1);
                    }
                    return Err(InvalidMacFormat::InvalidToken(tokens[i].clone()));
                },
            }
            i = i + 1;
        }
        assert(toks.subrange(0, tokens.len() as int) =~= toks);
        if bytes.len() != MAC_SIZE_BYTES {
            return Err(InvalidMacFormat::WrongSize(mac_address.unicode_len()));
        }
        Ok(bytes)
    }

    /// Builds the magic packet for an already parsed 6-byte MAC.
    pub fn build_packet(mac_address: &[u8]) -> (packet: Vec<u8>)
        requires
            mac_address@.len() == MAC_SIZE_BYTES,
        ensures
            packet@ == magic_packet(mac_address@),
    {
        let mut packet: Vec<u8> = Vec::new();
        let mut i: usize = 0;
        while i < MAC_SIZE_BYTES
            invariant
                i <= MAC_SIZE_BYTES,
                packet@ == magic_packet(mac_address@).subrange(0, i as int),
            decreases MAC_SIZE_BYTES - i,
        {
            packet.push(0xFF);
            i = i + 1;
        }
        let mut k: usize = 0;
        while k < MAC_PER_PACKET
            invariant
                mac_address@.len() == MAC_SIZE_BYTES,
                k <= MAC_PER_PACKET,
                packet@ == magic_packet(mac_address@).subrange(0, 6 + 6 * k),
            decreases MAC_PER_PACKET - k,
        {
            let mut j: usize = 0;
            while j < MAC_SIZE_BYTES
                invariant
                    mac_address@.len() == MAC_SIZE_BYTES,
                    k < MAC_PER_PACKET,
                    j <= MAC_SIZE_BYTES,
                    packet@ == magic_packet(mac_address@).subrange(0, 6 + 6 * k + j),
                decreases MAC_SIZE_BYTES - j,
            {
                proof {
                    assert((6 + 6 * k + j - 6) % 6 == j as int) by (nonlinear_arith)
                        requires
                            j < 6,
                    ;
                }
                packet.push(mac_address[j]);
                assert(packet@ =~= magic_packet(mac_address@).subrange(0, 6 + 6 * k + j + 1));
                j = j + 1;
            }
            k = k + 1;
        }
        assert(packet@ =~= magic_packet(mac_address@));
        packet
    }
}

} // verus!
