//! The short texts that relay and client exchange, as bytes.

use vstd::prelude::*;
use vstd::utf8::valid_utf8;

verus! {

/// `ping`: the probe that asks whether a relay is there.
pub open spec fn ping_text() -> Seq<u8> {
    seq![0x70u8, 0x69u8, 0x6eu8, 0x67u8]
}

/// `pong`: the relay's answer to a probe.
pub open spec fn pong_text() -> Seq<u8> {
    seq![0x70u8, 0x6fu8, 0x6eu8, 0x67u8]
}

/// `ok`.
pub open spec fn ok_text() -> Seq<u8> {
    seq![0x6fu8, 0x6bu8]
}

/// `room full`.
pub open spec fn room_full_text() -> Seq<u8> {
    seq![0x72u8, 0x6fu8, 0x6fu8, 0x6du8, 0x20u8, 0x66u8, 0x75u8, 0x6cu8, 0x6cu8]
}

/// `bad password`.
pub open spec fn bad_password_text() -> Seq<u8> {
    seq![
        0x62u8, 0x61u8, 0x64u8, 0x20u8, 0x70u8, 0x61u8, 0x73u8, 0x73u8, 0x77u8, 0x6fu8, 0x72u8,
        0x64u8,
    ]
}

/// `|||`: what parts the two halves of the relay's banner.
pub open spec fn separator_text() -> Seq<u8> {
    seq![0x7cu8, 0x7cu8, 0x7cu8]
}

/// `ips?`: the relay's question for the client's local addresses.
pub open spec fn ips_text() -> Seq<u8> {
    seq![0x69u8, 0x70u8, 0x73u8, 0x3fu8]
}

/// `handshake`: what tells a waiting client that its peer has come.
pub open spec fn handshake_text() -> Seq<u8> {
    seq![0x68u8, 0x61u8, 0x6eu8, 0x64u8, 0x73u8, 0x68u8, 0x61u8, 0x6bu8, 0x65u8]
}

/// `siec`: the name under which the curve is announced.
pub open spec fn siec_text() -> Seq<u8> {
    seq![0x73u8, 0x69u8, 0x65u8, 0x63u8]
}

/// The bytes of `ping`.
pub fn text_ping() -> (r: Vec<u8>)
    ensures
        r@ == ping_text(),
{
    let r: Vec<u8> = vec![0x70u8, 0x69u8, 0x6eu8, 0x67u8];
    proof {
        assert(r@ =~= ping_text());
    }
    r
}

/// The bytes of `pong`.
pub fn text_pong() -> (r: Vec<u8>)
    ensures
        r@ == pong_text(),
{
    let r: Vec<u8> = vec![0x70u8, 0x6fu8, 0x6eu8, 0x67u8];
    proof {
        assert(r@ =~= pong_text());
    }
    r
}

/// The bytes of `ok`.
pub fn text_ok() -> (r: Vec<u8>)
    ensures
        r@ == ok_text(),
{
    let r: Vec<u8> = vec![0x6fu8, 0x6bu8];
    proof {
        assert(r@ =~= ok_text());
    }
    r
}

/// The bytes of `room full`.
pub fn text_room_full() -> (r: Vec<u8>)
    ensures
        r@ == room_full_text(),
{
    let r: Vec<u8> = vec![0x72u8, 0x6fu8, 0x6fu8, 0x6du8, 0x20u8, 0x66u8, 0x75u8, 0x6cu8, 0x6cu8];
    proof {
        assert(r@ =~= room_full_text());
    }
    r
}

/// The bytes of `bad password`.
pub fn text_bad_password() -> (r: Vec<u8>)
    ensures
        r@ == bad_password_text(),
{
    let r: Vec<u8> = vec![
        0x62u8, 0x61u8, 0x64u8, 0x20u8, 0x70u8, 0x61u8, 0x73u8, 0x73u8, 0x77u8, 0x6fu8, 0x72u8,
        0x64u8,
    ];
    proof {
        assert(r@ =~= bad_password_text());
    }
    r
}

/// The bytes of `ips?`.
pub fn text_ips() -> (r: Vec<u8>)
    ensures
        r@ == ips_text(),
{
    let r: Vec<u8> = vec![0x69u8, 0x70u8, 0x73u8, 0x3fu8];
    proof {
        assert(r@ =~= ips_text());
    }
    r
}

/// The bytes of `handshake`.
pub fn text_handshake() -> (r: Vec<u8>)
    ensures
        r@ == handshake_text(),
{
    let r: Vec<u8> = vec![0x68u8, 0x61u8, 0x6eu8, 0x64u8, 0x73u8, 0x68u8, 0x61u8, 0x6bu8, 0x65u8];
    proof {
        assert(r@ =~= handshake_text());
    }
    r
}

/// The bytes of `siec`.
pub fn text_siec() -> (r: Vec<u8>)
    ensures
        r@ == siec_text(),
{
    let r: Vec<u8> = vec![0x73u8, 0x69u8, 0x65u8, 0x63u8];
    proof {
        assert(r@ =~= siec_text());
    }
    r
}

/// `s` without the white space at its two ends, as `str::trim` removes it.
pub uninterp spec fn str_trim(s: Seq<char>) -> Seq<char>;

/// The UTF-8 bytes of a text.
pub open spec fn encoded(s: Seq<char>) -> Seq<u8> {
    vstd::utf8::encode_utf8(s)
}

/// `s` trimmed, by `str::trim`.
///
/// Trusted: what is left is a function of the text.
#[verifier::external_body]
pub(crate) fn trimmed(s: &str) -> (r: String)
    ensures
        r@ == str_trim(s@),
{
    s.trim().to_owned()
}

/// Whether `bytes` are UTF-8, by `std::str::from_utf8`.
///
/// Trusted: the conversion succeeds exactly on well-formed UTF-8.
#[verifier::external_body]
pub(crate) fn is_utf8(bytes: &[u8]) -> (r: bool)
    ensures
        r == valid_utf8(bytes@),
{
    std::str::from_utf8(bytes).is_ok()
}

/// The text that `bytes` encode, by `String::from_utf8`.
///
/// Trusted: the conversion succeeds exactly on well-formed UTF-8, and the text
/// is the one whose UTF-8 encoding the bytes are.
#[verifier::external_body]
pub(crate) fn text_of(bytes: Vec<u8>) -> (r: Option<String>)
    ensures
        r is Some <==> valid_utf8(bytes@),
        r matches Some(s) ==> s@ == vstd::utf8::decode_utf8(bytes@) && encoded(s@) == bytes@,
{
    String::from_utf8(bytes).ok()
}

/// The JSON array of the given texts, as `serde_json` writes it.
pub uninterp spec fn json_of_strings(items: Seq<Seq<char>>) -> Seq<char>;

/// The texts of a list.
pub open spec fn texts_of(items: Seq<String>) -> Seq<Seq<char>> {
    Seq::new(items.len(), |i: int| items[i]@)
}

/// The JSON array of `items`, by `serde_json::to_string`.
///
/// Trusted: a list of texts is always written, into memory, where no write
/// fails; and what is written is a function of the texts.
#[verifier::external_body]
pub(crate) fn json_array(items: &Vec<String>) -> (r: Option<String>)
    ensures
        r is Some,
        r matches Some(s) ==> s@ == json_of_strings(texts_of(items@)),
{
    serde_json::to_string(items).ok()
}

/// The decimal digits of `n`.
pub open spec fn decimal(n: nat) -> Seq<u8>
    decreases n,
{
    if n < 10 {
        seq![(0x30 + n) as u8]
    } else {
        decimal(n / 10).push((0x30 + n % 10) as u8)
    }
}

/// The ports in decimal, parted by commas.
pub open spec fn csv(ports: Seq<u16>) -> Seq<u8>
    decreases ports.len(),
{
    if ports.len() == 0 {
        Seq::<u8>::empty()
    } else if ports.len() == 1 {
        decimal(ports[0] as nat)
    } else {
        csv(ports.drop_last()) + seq![0x2cu8] + decimal(ports.last() as nat)
    }
}

/// The relay's banner: its multiplex ports, or `ok` where it has none, then
/// the separator, then the address under which it sees the client.
pub open spec fn banner_of(ports: Seq<u16>, peer_addr: Seq<u8>) -> Seq<u8> {
    (if ports.len() == 0 {
        ok_text()
    } else {
        csv(ports)
    }) + separator_text() + peer_addr
}

/// The decimal digits of `n`.
pub fn decimal_digits(n: u16) -> (r: Vec<u8>)
    ensures
        r@ == decimal(n as nat),
    decreases n,
{
    if n < 10 {
        let mut r: Vec<u8> = Vec::new();
        r.push(0x30 + n as u8);
        proof {
            assert(r@ =~= decimal(n as nat));
        }
        r
    } else {
        let mut r = decimal_digits(n / 10);
        r.push(0x30 + (n % 10) as u8);
        r
    }
}

/// The relay's banner for a client seen at `peer_addr`.
pub fn banner(ports: &Vec<u16>, peer_addr: &[u8]) -> (r: Vec<u8>)
    ensures
        r@ == banner_of(ports@, peer_addr@),
{
    let mut message: Vec<u8> = Vec::new();
    if ports.len() == 0 {
        message.push(0x6f);
        message.push(0x6b);
        proof {
            assert(message@ =~= ok_text());
        }
    } else {
        let mut i: usize = 0;
        while i < ports.len()
            invariant
                i <= ports.len(),
                message@ == csv(ports@.take(i as int)),
            decreases ports.len() - i,
        {
            if i > 0 {
                message.push(0x2c);
            }
            let digits = decimal_digits(ports[i]);
            let ghost before = message@;
            let mut j: usize = 0;
            while j < digits.len()
                invariant
                    j <= digits.len(),
                    message@ == before + digits@.take(j as int),
                decreases digits.len() - j,
            {
                message.push(digits[j]);
                proof {
                    assert(message@ =~= before + digits@.take(j + 1));
                }
                j = j + 1;
            }
            proof {
                assert(digits@.take(digits.len() as int) =~= digits@);
                assert(ports@.take(i + 1).drop_last() =~= ports@.take(i as int));
                assert(message@ =~= csv(ports@.take(i + 1)));
            }
            i = i + 1;
        }
        proof {
            assert(ports@.take(ports.len() as int) =~= ports@);
        }
    }
    let ghost head = message@;
    message.push(0x7c);
    message.push(0x7c);
    message.push(0x7c);
    proof {
        assert(message@ =~= head + separator_text());
    }
    let ghost with_separator = message@;
    let mut k: usize = 0;
    while k < peer_addr.len()
        invariant
            k <= peer_addr.len(),
            message@ == with_separator + peer_addr@.take(k as int),
        decreases peer_addr.len() - k,
    {
        message.push(peer_addr[k]);
        proof {
            assert(message@ =~= with_separator + peer_addr@.take(k + 1));
        }
        k = k + 1;
    }
    proof {
        assert(peer_addr@.take(peer_addr.len() as int) =~= peer_addr@);
    }
    message
}

} // verus!
