//! The three Bitcoin address kinds this library accepts, their script
//! encodings, and the textual address codec (bech32 segwit v0 and
//! base58check) for the three supported networks.
use vstd::prelude::*;

use crate::digest::{sha256d, sha256d_of, hash160_of};
use crate::state::Network;
use crate::tx::hash160;

verus! {

broadcast use vstd::string::is_ascii_spec_bytes;

/// A supported Bitcoin address: each kind carries a 20-byte hash.
#[derive(Clone, Copy, Debug, PartialEq, Eq)]
pub enum BitcoinAddress {
    /// A native segwit v0 pay-to-witness-public-key-hash address.
    P2wpkhV0([u8; 20]),
    /// A legacy pay-to-public-key-hash address.
    P2pkh([u8; 20]),
    /// A pay-to-script-hash address.
    P2sh([u8; 20]),
}

/// Why an address string was rejected.
#[derive(Clone, Debug, PartialEq, Eq)]
pub enum ParseAddressError {
    /// Not a well-formed address in any supported encoding.
    Malformed,
    /// The checksum does not match the payload.
    BadChecksum,
    /// A valid address, but for one of the other networks.
    WrongNetwork,
    /// A base58check version byte this system does not accept.
    UnsupportedVersion(u8),
    /// A segwit witness version other than 0.
    UnsupportedWitnessVersion(u8),
    /// A witness program that is not 20 bytes.
    BadWitnessLength(usize),
}

/// The scriptPubKey a transaction output carries for each address kind.
pub open spec fn script_pubkey_of(a: BitcoinAddress) -> Seq<u8> {
    match a {
        BitcoinAddress::P2wpkhV0(h) => seq![0x00u8, 0x14u8] + h@,
        BitcoinAddress::P2pkh(h) => seq![0x76u8, 0xa9u8, 0x14u8] + h@ + seq![
            0x88u8,
            0xacu8,
        ],
        BitcoinAddress::P2sh(h) => seq![0xa9u8, 0x14u8] + h@ + seq![0x87u8],
    }
}

/// Appends the scriptPubKey for `a` onto `buf`.
pub fn push_script_pubkey(buf: &mut Vec<u8>, a: &BitcoinAddress)
    ensures
        final(buf)@ == old(buf)@ + script_pubkey_of(*a),
{
    match a {
        BitcoinAddress::P2wpkhV0(h) => {
            buf.push(0x00);
            buf.push(0x14);
            push_hash20(buf, h);
            assert(buf@ =~= old(buf)@ + script_pubkey_of(*a));
        },
        BitcoinAddress::P2pkh(h) => {
            buf.push(0x76);
            buf.push(0xa9);
            buf.push(0x14);
            push_hash20(buf, h);
            buf.push(0x88);
            buf.push(0xac);
            assert(buf@ =~= old(buf)@ + script_pubkey_of(*a));
        },
        BitcoinAddress::P2sh(h) => {
            buf.push(0xa9);
            buf.push(0x14);
            push_hash20(buf, h);
            buf.push(0x87);
            assert(buf@ =~= old(buf)@ + script_pubkey_of(*a));
        },
    }
}

/// Appends the 20 bytes of `h` onto `buf`.
fn push_hash20(buf: &mut Vec<u8>, h: &[u8; 20])
    ensures
        final(buf)@ == old(buf)@ + h@,
{
    let mut k: usize = 0;
    while k < 20
        invariant
            k <= 20,
            buf@ == old(buf)@ + h@.subrange(0, k as int),
        decreases 20 - k,
    {
        buf.push(h[k]);
        proof {
            assert(h@.subrange(0, k + 1) =~= h@.subrange(0, k as int).push(h@[k as int]));
        }
        k = k + 1;
    }
    assert(h@.subrange(0, 20) =~= h@);
}

/// The bech32 human-readable prefix of each network, as ASCII bytes.
pub open spec fn hrp_of(net: Network) -> Seq<u8> {
    match net {
        Network::Mainnet => seq![98u8, 99u8],
        Network::Testnet => seq![116u8, 98u8],
        Network::Regtest => seq![98u8, 99u8, 114u8, 116u8],
    }
}

/// The base58check version byte of pay-to-public-key-hash addresses.
pub open spec fn p2pkh_version(net: Network) -> u8 {
    match net {
        Network::Mainnet => 0x00u8,
        Network::Testnet => 0x6fu8,
        Network::Regtest => 0x6fu8,
    }
}

/// The base58check version byte of pay-to-script-hash addresses.
pub open spec fn p2sh_version(net: Network) -> u8 {
    match net {
        Network::Mainnet => 0x05u8,
        Network::Testnet => 0xc4u8,
        Network::Regtest => 0xc4u8,
    }
}

fn hrp_vec(net: Network) -> (r: Vec<u8>)
    ensures
        r@ =~= hrp_of(net),
{
    let mut v: Vec<u8> = Vec::new();
    match net {
        Network::Mainnet => {
            v.push(98);
            v.push(99);
        },
        Network::Testnet => {
            v.push(116);
            v.push(98);
        },
        Network::Regtest => {
            v.push(98);
            v.push(99);
            v.push(114);
            v.push(116);
        },
    }
    v
}

fn p2pkh_version_exec(net: Network) -> (r: u8)
    ensures
        r == p2pkh_version(net),
{
    match net {
        Network::Mainnet => 0x00,
        Network::Testnet => 0x6f,
        Network::Regtest => 0x6f,
    }
}

fn p2sh_version_exec(net: Network) -> (r: u8)
    ensures
        r == p2sh_version(net),
{
    match net {
        Network::Mainnet => 0x05,
        Network::Testnet => 0xc4,
        Network::Regtest => 0xc4,
    }
}

/// The ASCII byte standing for base58 digit `d`
/// (alphabet 123456789ABCDEFGHJKLMNPQRSTUVWXYZabcdefghijkmnopqrstuvwxyz).
pub open spec fn base58_byte_of(d: u8) -> u8 {
    if d == 0 {
        49u8
    } else if d == 1 {
        50u8
    } else if d == 2 {
        51u8
    } else if d == 3 {
        52u8
    } else if d == 4 {
        53u8
    } else if d == 5 {
        54u8
    } else if d == 6 {
        55u8
    } else if d == 7 {
        56u8
    } else if d == 8 {
        57u8
    } else if d == 9 {
        65u8
    } else if d == 10 {
        66u8
    } else if d == 11 {
        67u8
    } else if d == 12 {
        68u8
    } else if d == 13 {
        69u8
    } else if d == 14 {
        70u8
    } else if d == 15 {
        71u8
    } else if d == 16 {
        72u8
    } else if d == 17 {
        74u8
    } else if d == 18 {
        75u8
    } else if d == 19 {
        76u8
    } else if d == 20 {
        77u8
    } else if d == 21 {
        78u8
    } else if d == 22 {
        80u8
    } else if d == 23 {
        81u8
    } else if d == 24 {
        82u8
    } else if d == 25 {
        83u8
    } else if d == 26 {
        84u8
    } else if d == 27 {
        85u8
    } else if d == 28 {
        86u8
    } else if d == 29 {
        87u8
    } else if d == 30 {
        88u8
    } else if d == 31 {
        89u8
    } else if d == 32 {
        90u8
    } else if d == 33 {
        97u8
    } else if d == 34 {
        98u8
    } else if d == 35 {
        99u8
    } else if d == 36 {
        100u8
    } else if d == 37 {
        101u8
    } else if d == 38 {
        102u8
    } else if d == 39 {
        103u8
    } else if d == 40 {
        104u8
    } else if d == 41 {
        105u8
    } else if d == 42 {
        106u8
    } else if d == 43 {
        107u8
    } else if d == 44 {
        109u8
    } else if d == 45 {
        110u8
    } else if d == 46 {
        111u8
    } else if d == 47 {
        112u8
    } else if d == 48 {
        113u8
    } else if d == 49 {
        114u8
    } else if d == 50 {
        115u8
    } else if d == 51 {
        116u8
    } else if d == 52 {
        117u8
    } else if d == 53 {
        118u8
    } else if d == 54 {
        119u8
    } else if d == 55 {
        120u8
    } else if d == 56 {
        121u8
    } else if d == 57 {
        122u8
    } else {
        0u8
    }
}

/// The base58 digit value of ASCII byte `c`, or 255 for a byte outside the
/// alphabet.
pub open spec fn base58_value_of(c: u8) -> u8 {
    if c == 49 {
        0u8
    } else if c == 50 {
        1u8
    } else if c == 51 {
        2u8
    } else if c == 52 {
        3u8
    } else if c == 53 {
        4u8
    } else if c == 54 {
        5u8
    } else if c == 55 {
        6u8
    } else if c == 56 {
        7u8
    } else if c == 57 {
        8u8
    } else if c == 65 {
        9u8
    } else if c == 66 {
        10u8
    } else if c == 67 {
        11u8
    } else if c == 68 {
        12u8
    } else if c == 69 {
        13u8
    } else if c == 70 {
        14u8
    } else if c == 71 {
        15u8
    } else if c == 72 {
        16u8
    } else if c == 74 {
        17u8
    } else if c == 75 {
        18u8
    } else if c == 76 {
        19u8
    } else if c == 77 {
        20u8
    } else if c == 78 {
        21u8
    } else if c == 80 {
        22u8
    } else if c == 81 {
        23u8
    } else if c == 82 {
        24u8
    } else if c == 83 {
        25u8
    } else if c == 84 {
        26u8
    } else if c == 85 {
        27u8
    } else if c == 86 {
        28u8
    } else if c == 87 {
        29u8
    } else if c == 88 {
        30u8
    } else if c == 89 {
        31u8
    } else if c == 90 {
        32u8
    } else if c == 97 {
        33u8
    } else if c == 98 {
        34u8
    } else if c == 99 {
        35u8
    } else if c == 100 {
        36u8
    } else if c == 101 {
        37u8
    } else if c == 102 {
        38u8
    } else if c == 103 {
        39u8
    } else if c == 104 {
        40u8
    } else if c == 105 {
        41u8
    } else if c == 106 {
        42u8
    } else if c == 107 {
        43u8
    } else if c == 109 {
        44u8
    } else if c == 110 {
        45u8
    } else if c == 111 {
        46u8
    } else if c == 112 {
        47u8
    } else if c == 113 {
        48u8
    } else if c == 114 {
        49u8
    } else if c == 115 {
        50u8
    } else if c == 116 {
        51u8
    } else if c == 117 {
        52u8
    } else if c == 118 {
        53u8
    } else if c == 119 {
        54u8
    } else if c == 120 {
        55u8
    } else if c == 121 {
        56u8
    } else if c == 122 {
        57u8
    } else {
        255u8
    }
}

fn base58_byte(d: u8) -> (r: u8)
    ensures
        r == base58_byte_of(d),
{
    match d {
        0 => 49,
        1 => 50,
        2 => 51,
        3 => 52,
        4 => 53,
        5 => 54,
        6 => 55,
        7 => 56,
        8 => 57,
        9 => 65,
        10 => 66,
        11 => 67,
        12 => 68,
        13 => 69,
        14 => 70,
        15 => 71,
        16 => 72,
        17 => 74,
        18 => 75,
        19 => 76,
        20 => 77,
        21 => 78,
        22 => 80,
        23 => 81,
        24 => 82,
        25 => 83,
        26 => 84,
        27 => 85,
        28 => 86,
        29 => 87,
        30 => 88,
        31 => 89,
        32 => 90,
        33 => 97,
        34 => 98,
        35 => 99,
        36 => 100,
        37 => 101,
        38 => 102,
        39 => 103,
        40 => 104,
        41 => 105,
        42 => 106,
        43 => 107,
        44 => 109,
        45 => 110,
        46 => 111,
        47 => 112,
        48 => 113,
        49 => 114,
        50 => 115,
        51 => 116,
        52 => 117,
        53 => 118,
        54 => 119,
        55 => 120,
        56 => 121,
        57 => 122,
        _ => 0,
    }
}

fn base58_value(c: u8) -> (r: u8)
    ensures
        r == base58_value_of(c),
{
    match c {
        49 => 0,
        50 => 1,
        51 => 2,
        52 => 3,
        53 => 4,
        54 => 5,
        55 => 6,
        56 => 7,
        57 => 8,
        65 => 9,
        66 => 10,
        67 => 11,
        68 => 12,
        69 => 13,
        70 => 14,
        71 => 15,
        72 => 16,
        74 => 17,
        75 => 18,
        76 => 19,
        77 => 20,
        78 => 21,
        80 => 22,
        81 => 23,
        82 => 24,
        83 => 25,
        84 => 26,
        85 => 27,
        86 => 28,
        87 => 29,
        88 => 30,
        89 => 31,
        90 => 32,
        97 => 33,
        98 => 34,
        99 => 35,
        100 => 36,
        101 => 37,
        102 => 38,
        103 => 39,
        104 => 40,
        105 => 41,
        106 => 42,
        107 => 43,
        109 => 44,
        110 => 45,
        111 => 46,
        112 => 47,
        113 => 48,
        114 => 49,
        115 => 50,
        116 => 51,
        117 => 52,
        118 => 53,
        119 => 54,
        120 => 55,
        121 => 56,
        122 => 57,
        _ => 255,
    }
}

/// The ASCII byte standing for the 5-bit bech32 group `v`
/// (character set qpzry9x8gf2tvdw0s3jn54khce6mua7l).
pub open spec fn bech32_byte_of(v: u8) -> u8 {
    if v == 0 {
        113u8
    } else if v == 1 {
        112u8
    } else if v == 2 {
        122u8
    } else if v == 3 {
        114u8
    } else if v == 4 {
        121u8
    } else if v == 5 {
        57u8
    } else if v == 6 {
        120u8
    } else if v == 7 {
        56u8
    } else if v == 8 {
        103u8
    } else if v == 9 {
        102u8
    } else if v == 10 {
        50u8
    } else if v == 11 {
        116u8
    } else if v == 12 {
        118u8
    } else if v == 13 {
        100u8
    } else if v == 14 {
        119u8
    } else if v == 15 {
        48u8
    } else if v == 16 {
        115u8
    } else if v == 17 {
        51u8
    } else if v == 18 {
        106u8
    } else if v == 19 {
        110u8
    } else if v == 20 {
        53u8
    } else if v == 21 {
        52u8
    } else if v == 22 {
        107u8
    } else if v == 23 {
        104u8
    } else if v == 24 {
        99u8
    } else if v == 25 {
        101u8
    } else if v == 26 {
        54u8
    } else if v == 27 {
        109u8
    } else if v == 28 {
        117u8
    } else if v == 29 {
        97u8
    } else if v == 30 {
        55u8
    } else if v == 31 {
        108u8
    } else {
        0u8
    }
}

/// The 5-bit group value of ASCII byte `c`, or 255 for a byte outside the
/// character set.
pub open spec fn bech32_value_of(c: u8) -> u8 {
    if c == 113 {
        0u8
    } else if c == 112 {
        1u8
    } else if c == 122 {
        2u8
    } else if c == 114 {
        3u8
    } else if c == 121 {
        4u8
    } else if c == 57 {
        5u8
    } else if c == 120 {
        6u8
    } else if c == 56 {
        7u8
    } else if c == 103 {
        8u8
    } else if c == 102 {
        9u8
    } else if c == 50 {
        10u8
    } else if c == 116 {
        11u8
    } else if c == 118 {
        12u8
    } else if c == 100 {
        13u8
    } else if c == 119 {
        14u8
    } else if c == 48 {
        15u8
    } else if c == 115 {
        16u8
    } else if c == 51 {
        17u8
    } else if c == 106 {
        18u8
    } else if c == 110 {
        19u8
    } else if c == 53 {
        20u8
    } else if c == 52 {
        21u8
    } else if c == 107 {
        22u8
    } else if c == 104 {
        23u8
    } else if c == 99 {
        24u8
    } else if c == 101 {
        25u8
    } else if c == 54 {
        26u8
    } else if c == 109 {
        27u8
    } else if c == 117 {
        28u8
    } else if c == 97 {
        29u8
    } else if c == 55 {
        30u8
    } else if c == 108 {
        31u8
    } else {
        255u8
    }
}

fn bech32_byte(v: u8) -> (r: u8)
    ensures
        r == bech32_byte_of(v),
{
    match v {
        0 => 113,
        1 => 112,
        2 => 122,
        3 => 114,
        4 => 121,
        5 => 57,
        6 => 120,
        7 => 56,
        8 => 103,
        9 => 102,
        10 => 50,
        11 => 116,
        12 => 118,
        13 => 100,
        14 => 119,
        15 => 48,
        16 => 115,
        17 => 51,
        18 => 106,
        19 => 110,
        20 => 53,
        21 => 52,
        22 => 107,
        23 => 104,
        24 => 99,
        25 => 101,
        26 => 54,
        27 => 109,
        28 => 117,
        29 => 97,
        30 => 55,
        31 => 108,
        _ => 0,
    }
}

fn bech32_value(c: u8) -> (r: u8)
    ensures
        r == bech32_value_of(c),
{
    match c {
        113 => 0,
        112 => 1,
        122 => 2,
        114 => 3,
        121 => 4,
        57 => 5,
        120 => 6,
        56 => 7,
        103 => 8,
        102 => 9,
        50 => 10,
        116 => 11,
        118 => 12,
        100 => 13,
        119 => 14,
        48 => 15,
        115 => 16,
        51 => 17,
        106 => 18,
        110 => 19,
        53 => 20,
        52 => 21,
        107 => 22,
        104 => 23,
        99 => 24,
        101 => 25,
        54 => 26,
        109 => 27,
        117 => 28,
        97 => 29,
        55 => 30,
        108 => 31,
        _ => 255,
    }
}

/// One step of the BIP173 checksum polynomial.
pub open spec fn polymod_step(chk: u32, v: u8) -> u32 {
    let b = chk >> 25;
    (((chk & 0x1ff_ffff) << 5) ^ (v as u32)) ^ (if b & 1 == 1 {
        0x3b6a_57b2u32
    } else {
        0u32
    }) ^ (if b & 2 == 2 {
        0x2650_8e6du32
    } else {
        0u32
    }) ^ (if b & 4 == 4 {
        0x1ea1_19fau32
    } else {
        0u32
    }) ^ (if b & 8 == 8 {
        0x3d42_33ddu32
    } else {
        0u32
    }) ^ (if b & 16 == 16 {
        0x2a14_62b3u32
    } else {
        0u32
    })
}

/// The BIP173 checksum polynomial over a sequence of 5-bit groups.
pub open spec fn polymod(values: Seq<u8>, chk: u32) -> u32
    decreases values.len(),
{
    if values.len() == 0 {
        chk
    } else {
        polymod(values.drop_first(), polymod_step(chk, values.first()))
    }
}

/// The prefix expansion the checksum is computed over: the high bits of the
/// prefix, a zero, then its low bits.
pub open spec fn hrp_expand(hrp: Seq<u8>) -> Seq<u8> {
    hrp.map(|_i: int, b: u8| b >> 5) + seq![0u8] + hrp.map(|_i: int, b: u8| b & 31)
}

/// The six checksum groups appended to a bech32 string.
pub open spec fn bech32_checksum(hrp: Seq<u8>, data: Seq<u8>) -> Seq<u8> {
    let pm = polymod(hrp_expand(hrp) + data + seq![0u8, 0u8, 0u8, 0u8, 0u8, 0u8], 1) ^ 1;
    seq![
        ((pm >> 25) & 31) as u8,
        ((pm >> 20) & 31) as u8,
        ((pm >> 15) & 31) as u8,
        ((pm >> 10) & 31) as u8,
        ((pm >> 5) & 31) as u8,
        (pm & 31) as u8,
    ]
}

/// The 5-bit group at position `i` of the big-endian bit stream of `h`.
pub open spec fn group_at(h: Seq<u8>, i: int) -> u8 {
    let j = (5 * i) / 8;
    let off = (5 * i) % 8;
    if off <= 3 {
        (((h[j] as u32) >> ((3 - off) as u32)) & 31) as u8
    } else {
        ((((h[j] as u32) << ((off - 3) as u32)) | ((h[j + 1] as u32) >> ((11
            - off) as u32))) & 31) as u8
    }
}

/// A 20-byte hash regrouped into 32 5-bit groups.
pub open spec fn to5(h: Seq<u8>) -> Seq<u8> {
    Seq::new(32, |i: int| group_at(h, i))
}

/// The byte at position `j` of the bit stream held by the 5-bit groups `g`.
pub open spec fn byte_at(g: Seq<u8>, j: int) -> u8 {
    let i = (8 * j) / 5;
    let off = (8 * j) % 5;
    if off <= 2 {
        ((((g[i] as u32) << ((3 + off) as u32)) | ((g[i + 1] as u32) >> ((2
            - off) as u32))) & 255) as u8
    } else {
        ((((g[i] as u32) << ((3 + off) as u32)) | ((g[i + 1] as u32) << ((off
            - 2) as u32)) | ((g[i + 2] as u32) >> ((7 - off) as u32))) & 255) as u8
    }
}

/// 32 5-bit groups regrouped into 20 bytes.
pub open spec fn from5(g: Seq<u8>) -> Seq<u8> {
    Seq::new(20, |j: int| byte_at(g, j))
}

/// Regrouping 5-bit groups back into bytes undoes regrouping bytes into
/// 5-bit groups.
pub proof fn lemma_from5_to5(h: Seq<u8>)
    requires
        h.len() == 20,
    ensures
        from5(to5(h)) =~= h,
{
    assert forall|j: int| 0 <= j < 20 implies byte_at(to5(h), j) == h[j] by {
        lemma_byte_at_to5(h, j);
    }
    assert(from5(to5(h)) =~= h);
}

proof fn lemma_byte_at_to5(h: Seq<u8>, j: int)
    requires
        h.len() == 20,
        0 <= j < 20,
    ensures
        byte_at(to5(h), j) == h[j],
{
    let g = to5(h);
    let q = j / 5;
    let rj = j % 5;
    vstd::arithmetic::div_mod::lemma_fundamental_div_mod(j, 5);
    assert(0 <= rj < 5);
    assert(0 <= q <= 3);
    let b0 = h[5 * q];
    if rj == 0 {
        vstd::arithmetic::div_mod::lemma_fundamental_div_mod_converse(8 * j, 5, 8 * q, 0);
        vstd::arithmetic::div_mod::lemma_fundamental_div_mod_converse(
            5 * (8 * q),
            8,
            5 * q,
            0,
        );
        vstd::arithmetic::div_mod::lemma_fundamental_div_mod_converse(
            5 * (8 * q + 1),
            8,
            5 * q,
            5,
        );
        let b1 = h[5 * q + 1];
        let g0 = g[8 * q];
        let g1 = g[8 * q + 1];
        assert(g0 == (((b0 as u32) >> 3) & 31) as u8);
        assert(g1 == ((((b0 as u32) << 2) | ((b1 as u32) >> 6)) & 31) as u8);
        assert(byte_at(g, j) == ((((g0 as u32) << 3) | ((g1 as u32) >> 2)) & 255) as u8);
        assert((((((((b0 as u32) >> 3) & 31) as u8 as u32) << 3) | ((((((b0 as u32) << 2)
            | ((b1 as u32) >> 6)) & 31) as u8 as u32) >> 2)) & 255) as u8 == b0)
            by (bit_vector);
    } else if rj == 1 {
        vstd::arithmetic::div_mod::lemma_fundamental_div_mod_converse(
            8 * j,
            5,
            8 * q + 1,
            3,
        );
        vstd::arithmetic::div_mod::lemma_fundamental_div_mod_converse(
            5 * (8 * q + 1),
            8,
            5 * q,
            5,
        );
        vstd::arithmetic::div_mod::lemma_fundamental_div_mod_converse(
            5 * (8 * q + 2),
            8,
            5 * q + 1,
            2,
        );
        vstd::arithmetic::div_mod::lemma_fundamental_div_mod_converse(
            5 * (8 * q + 3),
            8,
            5 * q + 1,
            7,
        );
        let b1 = h[5 * q + 1];
        let b2 = h[5 * q + 2];
        let g1 = g[8 * q + 1];
        let g2 = g[8 * q + 2];
        let g3 = g[8 * q + 3];
        assert(g1 == ((((b0 as u32) << 2) | ((b1 as u32) >> 6)) & 31) as u8);
        assert(g2 == (((b1 as u32) >> 1) & 31) as u8);
        assert(g3 == ((((b1 as u32) << 4) | ((b2 as u32) >> 4)) & 31) as u8);
        assert(byte_at(g, j) == ((((g1 as u32) << 6) | ((g2 as u32) << 1) | ((g3 as u32)
            >> 4)) & 255) as u8);
        assert((((((((b0 as u32) << 2) | ((b1 as u32) >> 6)) & 31) as u8 as u32) << 6 | (((((
        b1 as u32) >> 1) & 31) as u8 as u32) << 1) | ((((((b1 as u32) << 4) | ((b2
            as u32) >> 4)) & 31) as u8 as u32) >> 4)) & 255) as u8 == b1) by (bit_vector);
    } else if rj == 2 {
        vstd::arithmetic::div_mod::lemma_fundamental_div_mod_converse(
            8 * j,
            5,
            8 * q + 3,
            1,
        );
        vstd::arithmetic::div_mod::lemma_fundamental_div_mod_converse(
            5 * (8 * q + 3),
            8,
            5 * q + 1,
            7,
        );
        vstd::arithmetic::div_mod::lemma_fundamental_div_mod_converse(
            5 * (8 * q + 4),
            8,
            5 * q + 2,
            4,
        );
        let b1 = h[5 * q + 1];
        let b2 = h[5 * q + 2];
        let b3 = h[5 * q + 3];
        let g3 = g[8 * q + 3];
        let g4 = g[8 * q + 4];
        assert(g3 == ((((b1 as u32) << 4) | ((b2 as u32) >> 4)) & 31) as u8);
        assert(g4 == ((((b2 as u32) << 1) | ((b3 as u32) >> 7)) & 31) as u8);
        assert(byte_at(g, j) == ((((g3 as u32) << 4) | ((g4 as u32) >> 1)) & 255) as u8);
        assert((((((((b1 as u32) << 4) | ((b2 as u32) >> 4)) & 31) as u8 as u32) << 4 | ((((((
        b2 as u32) << 1) | ((b3 as u32) >> 7)) & 31) as u8 as u32) >> 1)) & 255) as u8
            == b2) by (bit_vector);
    } else if rj == 3 {
        vstd::arithmetic::div_mod::lemma_fundamental_div_mod_converse(
            8 * j,
            5,
            8 * q + 4,
            4,
        );
        vstd::arithmetic::div_mod::lemma_fundamental_div_mod_converse(
            5 * (8 * q + 4),
            8,
            5 * q + 2,
            4,
        );
        vstd::arithmetic::div_mod::lemma_fundamental_div_mod_converse(
            5 * (8 * q + 5),
            8,
            5 * q + 3,
            1,
        );
        vstd::arithmetic::div_mod::lemma_fundamental_div_mod_converse(
            5 * (8 * q + 6),
            8,
            5 * q + 3,
            6,
        );
        let b2 = h[5 * q + 2];
        let b3 = h[5 * q + 3];
        let b4 = h[5 * q + 4];
        let g4 = g[8 * q + 4];
        let g5 = g[8 * q + 5];
        let g6 = g[8 * q + 6];
        assert(g4 == ((((b2 as u32) << 1) | ((b3 as u32) >> 7)) & 31) as u8);
        assert(g5 == (((b3 as u32) >> 2) & 31) as u8);
        assert(g6 == ((((b3 as u32) << 3) | ((b4 as u32) >> 5)) & 31) as u8);
        assert(byte_at(g, j) == ((((g4 as u32) << 7) | ((g5 as u32) << 2) | ((g6 as u32)
            >> 3)) & 255) as u8);
        assert((((((((b2 as u32) << 1) | ((b3 as u32) >> 7)) & 31) as u8 as u32) << 7 | (((((
        b3 as u32) >> 2) & 31) as u8 as u32) << 2) | ((((((b3 as u32) << 3) | ((b4
            as u32) >> 5)) & 31) as u8 as u32) >> 3)) & 255) as u8 == b3) by (bit_vector);
    } else {
        vstd::arithmetic::div_mod::lemma_fundamental_div_mod_converse(
            8 * j,
            5,
            8 * q + 6,
            2,
        );
        vstd::arithmetic::div_mod::lemma_fundamental_div_mod_converse(
            5 * (8 * q + 6),
            8,
            5 * q + 3,
            6,
        );
        vstd::arithmetic::div_mod::lemma_fundamental_div_mod_converse(
            5 * (8 * q + 7),
            8,
            5 * q + 4,
            3,
        );
        let b3 = h[5 * q + 3];
        let b4 = h[5 * q + 4];
        let g6 = g[8 * q + 6];
        let g7 = g[8 * q + 7];
        assert(g6 == ((((b3 as u32) << 3) | ((b4 as u32) >> 5)) & 31) as u8);
        assert(g7 == (((b4 as u32) >> 0) & 31) as u8);
        assert(byte_at(g, j) == ((((g6 as u32) << 5) | ((g7 as u32) >> 0)) & 255) as u8);
        assert((((((((b3 as u32) << 3) | ((b4 as u32) >> 5)) & 31) as u8 as u32) << 5 | ((((
        b4 as u32) >> 0) & 31) as u8 as u32) >> 0) & 255) as u8 == b4) by (bit_vector);
    }
}

/// The data part of a v0 witness address: the version group, then the
/// regrouped program.
pub open spec fn bech32_data(h: Seq<u8>) -> Seq<u8> {
    seq![0u8] + to5(h)
}

/// The groups a bech32 string carries after the separator: the data part
/// and its checksum.
pub open spec fn bech32_payload(hrp: Seq<u8>, h: Seq<u8>) -> Seq<u8> {
    bech32_data(h) + bech32_checksum(hrp, bech32_data(h))
}

/// A full bech32 string for the given prefix: prefix, separator, then the
/// payload groups through the character set.
pub open spec fn bech32_string_bytes(hrp: Seq<u8>, h: Seq<u8>) -> Seq<u8> {
    hrp + seq![49u8] + bech32_payload(hrp, h).map(|_i: int, v: u8| bech32_byte_of(v))
}

/// The full bech32 encoding of a v0 witness program for a network: prefix,
/// separator, then data and checksum groups through the character set.
pub open spec fn bech32_bytes(net: Network, h: Seq<u8>) -> Seq<u8> {
    bech32_string_bytes(hrp_of(net), h)
}

fn polymod_exec(values: &Vec<u8>, start: u32) -> (r: u32)
    ensures
        r == polymod(values@, start),
{
    let n = values.len();
    let mut chk = start;
    let mut k: usize = 0;
    proof {
        assert(values@.skip(0) =~= values@);
    }
    while k < n
        invariant
            k <= n,
            n == values@.len(),
            polymod(values@, start) == polymod(values@.skip(k as int), chk),
        decreases n - k,
    {
        proof {
            assert(values@.skip(k as int).drop_first() =~= values@.skip(k + 1));
            assert(values@.skip(k as int).first() == values@[k as int]);
        }
        let v = values[k];
        let b = chk >> 25;
        chk = (((chk & 0x1ff_ffff) << 5) ^ (v as u32)) ^ (if b & 1 == 1 {
            0x3b6a_57b2u32
        } else {
            0u32
        }) ^ (if b & 2 == 2 {
            0x2650_8e6du32
        } else {
            0u32
        }) ^ (if b & 4 == 4 {
            0x1ea1_19fau32
        } else {
            0u32
        }) ^ (if b & 8 == 8 {
            0x3d42_33ddu32
        } else {
            0u32
        }) ^ (if b & 16 == 16 {
            0x2a14_62b3u32
        } else {
            0u32
        });
        k = k + 1;
    }
    proof {
        assert(values@.skip(n as int) =~= Seq::<u8>::empty());
    }
    chk
}

/// The checksum input: expanded prefix, data groups, six zero groups.
fn checksum_input(hrp: &Vec<u8>, data: &Vec<u8>) -> (r: Vec<u8>)
    ensures
        r@ =~= hrp_expand(hrp@) + data@ + seq![0u8, 0u8, 0u8, 0u8, 0u8, 0u8],
{
    let mut v: Vec<u8> = Vec::new();
    let nh = hrp.len();
    let mut k: usize = 0;
    while k < nh
        invariant
            k <= nh,
            nh == hrp@.len(),
            v@ =~= hrp@.map(|_i: int, b: u8| b >> 5).take(k as int),
        decreases nh - k,
    {
        v.push(hrp[k] >> 5);
        proof {
            assert(v@ =~= hrp@.map(|_i: int, b: u8| b >> 5).take(k + 1));
        }
        k = k + 1;
    }
    proof {
        assert(hrp@.map(|_i: int, b: u8| b >> 5).take(nh as int) =~= hrp@.map(
            |_i: int, b: u8| b >> 5,
        ));
    }
    v.push(0);
    let ghost mid = v@;
    let mut k2: usize = 0;
    while k2 < nh
        invariant
            k2 <= nh,
            nh == hrp@.len(),
            v@ =~= mid + hrp@.map(|_i: int, b: u8| b & 31).take(k2 as int),
        decreases nh - k2,
    {
        v.push(hrp[k2] & 31);
        proof {
            assert(v@ =~= mid + hrp@.map(|_i: int, b: u8| b & 31).take(k2 + 1));
        }
        k2 = k2 + 1;
    }
    proof {
        assert(hrp@.map(|_i: int, b: u8| b & 31).take(nh as int) =~= hrp@.map(
            |_i: int, b: u8| b & 31,
        ));
    }
    let ghost mid2 = v@;
    let nd = data.len();
    let mut k3: usize = 0;
    while k3 < nd
        invariant
            k3 <= nd,
            nd == data@.len(),
            v@ =~= mid2 + data@.take(k3 as int),
        decreases nd - k3,
    {
        v.push(data[k3]);
        proof {
            assert(v@ =~= mid2 + data@.take(k3 + 1));
        }
        k3 = k3 + 1;
    }
    proof {
        assert(data@.take(nd as int) =~= data@);
    }
    let mut k4: usize = 0;
    while k4 < 6
        invariant
            k4 <= 6,
            v@ =~= mid2 + data@ + Seq::new(k4 as nat, |_i: int| 0u8),
        decreases 6 - k4,
    {
        v.push(0);
        proof {
            assert(v@ =~= mid2 + data@ + Seq::new((k4 + 1) as nat, |_i: int| 0u8));
        }
        k4 = k4 + 1;
    }
    proof {
        assert(Seq::new(6nat, |_i: int| 0u8) =~= seq![0u8, 0u8, 0u8, 0u8, 0u8, 0u8]);
    }
    v
}

/// The version group and regrouped program of a 20-byte witness program.
fn bech32_data_exec(h: &[u8; 20]) -> (r: Vec<u8>)
    ensures
        r@ =~= bech32_data(h@),
        forall|i: int| 0 <= i < r@.len() ==> (#[trigger] r@[i]) < 32,
{
    let mut v: Vec<u8> = Vec::new();
    v.push(0);
    let mut i: usize = 0;
    while i < 32
        invariant
            i <= 32,
            v@.len() == i + 1,
            v@[0] == 0u8,
            forall|m: int| 1 <= m < i + 1 ==> (#[trigger] v@[m]) == group_at(h@, m - 1),
            forall|m: int| 0 <= m < i + 1 ==> (#[trigger] v@[m]) < 32,
        decreases 32 - i,
    {
        let j = (5 * i) / 8;
        let off = (5 * i) % 8;
        proof {
            vstd::arithmetic::div_mod::lemma_fundamental_div_mod(5 * (i as int), 8);
        }
        let raw: u32 = if off <= 3 {
            (h[j] as u32) >> ((3 - off) as u32)
        } else {
            ((h[j] as u32) << ((off - 3) as u32)) | ((h[j + 1] as u32) >> ((11
                - off) as u32))
        };
        let g: u8 = (raw & 31) as u8;
        proof {
            assert(raw & 31 < 32) by (bit_vector);
            assert(g == group_at(h@, i as int));
        }
        v.push(g);
        i = i + 1;
    }
    proof {
        assert(v@ =~= bech32_data(h@));
    }
    v
}

/// The bech32 string for a v0 witness program, as ASCII bytes.
fn bech32_encode(net: Network, h: &[u8; 20]) -> (r: Vec<u8>)
    ensures
        r@ =~= bech32_bytes(net, h@),
{
    let hrp = hrp_vec(net);
    let data = bech32_data_exec(h);
    let full = checksum_input(&hrp, &data);
    let pm = polymod_exec(&full, 1) ^ 1;
    let mut out: Vec<u8> = Vec::new();
    let nh = hrp.len();
    let mut k: usize = 0;
    while k < nh
        invariant
            k <= nh,
            nh == hrp@.len(),
            out@ =~= hrp@.take(k as int),
        decreases nh - k,
    {
        out.push(hrp[k]);
        proof {
            assert(out@ =~= hrp@.take(k + 1));
        }
        k = k + 1;
    }
    proof {
        assert(hrp@.take(nh as int) =~= hrp@);
    }
    out.push(49);
    let ghost chk = bech32_checksum(hrp_of(net), bech32_data(h@));
    let mut tail: Vec<u8> = Vec::new();
    let nd = data.len();
    let mut k2: usize = 0;
    while k2 < nd
        invariant
            k2 <= nd,
            nd == data@.len(),
            forall|i: int| 0 <= i < nd ==> (#[trigger] data@[i]) < 32,
            tail@ =~= data@.take(k2 as int).map(|_i: int, v: u8| bech32_byte_of(v)),
        decreases nd - k2,
    {
        tail.push(bech32_byte(data[k2]));
        proof {
            assert(tail@ =~= data@.take(k2 + 1).map(|_i: int, v: u8| bech32_byte_of(v)));
        }
        k2 = k2 + 1;
    }
    proof {
        assert(data@.take(nd as int) =~= data@);
    }
    let c0 = ((pm >> 25) & 31) as u8;
    let c1 = ((pm >> 20) & 31) as u8;
    let c2 = ((pm >> 15) & 31) as u8;
    let c3 = ((pm >> 10) & 31) as u8;
    let c4 = ((pm >> 5) & 31) as u8;
    let c5 = (pm & 31) as u8;
    proof {
        let pmx = pm;
        assert(((pmx >> 25) & 31) < 32 && ((pmx >> 20) & 31) < 32 && ((pmx >> 15) & 31)
            < 32 && ((pmx >> 10) & 31) < 32 && ((pmx >> 5) & 31) < 32 && (pmx & 31)
            < 32) by (bit_vector);
    }
    let ghost tail_before = tail@;
    tail.push(bech32_byte(c0));
    tail.push(bech32_byte(c1));
    tail.push(bech32_byte(c2));
    tail.push(bech32_byte(c3));
    tail.push(bech32_byte(c4));
    tail.push(bech32_byte(c5));
    proof {
        assert(seq![c0, c1, c2, c3, c4, c5] =~= chk);
        assert(tail@ =~= tail_before + chk.map(|_i: int, v: u8| bech32_byte_of(v)));
        assert((bech32_data(h@) + chk).map(|_i: int, v: u8| bech32_byte_of(v)) =~= bech32_data(
            h@,
        ).map(|_i: int, v: u8| bech32_byte_of(v)) + chk.map(|_i: int, v: u8| bech32_byte_of(v)));
    }
    let ghost out_before = out@;
    let nt = tail.len();
    let mut k3: usize = 0;
    while k3 < nt
        invariant
            k3 <= nt,
            nt == tail@.len(),
            out@ =~= out_before + tail@.take(k3 as int),
        decreases nt - k3,
    {
        out.push(tail[k3]);
        proof {
            assert(out@ =~= out_before + tail@.take(k3 + 1));
        }
        k3 = k3 + 1;
    }
    proof {
        assert(tail@.take(nt as int) =~= tail@);
        assert(out@ =~= bech32_bytes(net, h@));
    }
    out
}

/// Long division of a big-endian byte string by 58, one byte at a time,
/// carrying the running remainder.
pub open spec fn div58_go(b: Seq<u8>, i: nat, rem: u8) -> (Seq<u8>, u8)
    decreases b.len() - i,
{
    if i >= b.len() {
        (Seq::empty(), rem)
    } else {
        let cur = (rem as int) * 256 + b[i as int];
        let rest = div58_go(b, i + 1, (cur % 58) as u8);
        (seq![(cur / 58) as u8] + rest.0, rest.1)
    }
}

/// Quotient and remainder of a big-endian byte string divided by 58.
pub open spec fn div58(b: Seq<u8>) -> (Seq<u8>, u8) {
    div58_go(b, 0, 0)
}

/// The first `k` base58 digits of the number held in `b`, least significant
/// first, obtained by `k` long divisions; 35 divisions exhaust any 25-byte
/// number.
pub open spec fn b58_little(b: Seq<u8>, k: nat) -> Seq<u8>
    decreases k,
{
    if k == 0 {
        Seq::empty()
    } else {
        seq![div58(b).1] + b58_little(div58(b).0, (k - 1) as nat)
    }
}

pub open spec fn trim_trailing_zeros(s: Seq<u8>) -> Seq<u8>
    decreases s.len(),
{
    if s.len() > 0 && s.last() == 0 {
        trim_trailing_zeros(s.drop_last())
    } else {
        s
    }
}

pub open spec fn leading_zero_count(b: Seq<u8>) -> int
    decreases b.len(),
{
    if b.len() > 0 && b.first() == 0 {
        1 + leading_zero_count(b.drop_first())
    } else {
        0
    }
}

pub proof fn lemma_leading_zero_count(b: Seq<u8>, k: int)
    requires
        0 <= k <= b.len(),
        forall|j: int| 0 <= j < k ==> b[j] == 0,
        k < b.len() ==> b[k] != 0,
    ensures
        leading_zero_count(b) == k,
    decreases k,
{
    if k > 0 {
        lemma_leading_zero_count(b.drop_first(), k - 1);
    }
}

/// A base58check payload: version byte, hash, and the first four bytes of
/// the double SHA-256 of both.
pub open spec fn base58check_payload(version: u8, h: Seq<u8>) -> Seq<u8> {
    let body = seq![version] + h;
    body + sha256d_of(body).subrange(0, 4)
}

/// The base58check encoding as ASCII bytes: one '1' per leading zero byte,
/// then the base58 digits of the payload, most significant first.
pub open spec fn base58_bytes(version: u8, h: Seq<u8>) -> Seq<u8> {
    let payload = base58check_payload(version, h);
    Seq::new(leading_zero_count(payload) as nat, |_i: int| 49u8) + trim_trailing_zeros(
        b58_little(payload, 35),
    ).reverse().map(|_i: int, d: u8| base58_byte_of(d))
}

fn div58_exec(b: &Vec<u8>) -> (r: (Vec<u8>, u8))
    ensures
        r.0@ =~= div58(b@).0,
        r.1 == div58(b@).1,
{
    let n = b.len();
    let mut q: Vec<u8> = Vec::new();
    let mut rem: u8 = 0;
    let mut i: usize = 0;
    while i < n
        invariant
            i <= n,
            n == b@.len(),
            rem < 58,
            q@.len() == i,
            div58(b@).0 =~= q@ + div58_go(b@, i as nat, rem).0,
            div58(b@).1 == div58_go(b@, i as nat, rem).1,
        decreases n - i,
    {
        let cur: u32 = (rem as u32) * 256 + (b[i] as u32);
        let ghost old_rem = rem;
        proof {
            assert(cur == (old_rem as int) * 256 + b@[i as int]);
            assert(cur < 58 * 256);
        }
        q.push((cur / 58) as u8);
        rem = (cur % 58) as u8;
        proof {
            assert(div58_go(b@, i as nat, old_rem).0 =~= seq![(cur as int / 58) as u8]
                + div58_go(b@, (i + 1) as nat, rem).0);
            assert(div58(b@).0 =~= q@ + div58_go(b@, (i + 1) as nat, rem).0);
        }
        i = i + 1;
    }
    (q, rem)
}

/// The base58check string for a version byte and 20-byte hash, as ASCII
/// bytes.
fn base58check_encode(version: u8, h: &[u8; 20]) -> (r: Vec<u8>)
    ensures
        r@ =~= base58_bytes(version, h@),
{
    let mut body: Vec<u8> = Vec::new();
    body.push(version);
    push_hash20(&mut body, h);
    let chk = sha256d(body.as_slice());
    let mut payload = body;
    payload.push(chk[0]);
    payload.push(chk[1]);
    payload.push(chk[2]);
    payload.push(chk[3]);
    proof {
        assert(payload@ =~= base58check_payload(version, h@));
    }
    let np = payload.len();
    let mut z: usize = 0;
    while z < np && payload[z] == 0
        invariant
            z <= np,
            np == payload@.len(),
            forall|j: int| 0 <= j < z ==> payload@[j] == 0,
        decreases np - z,
    {
        z = z + 1;
    }
    proof {
        lemma_leading_zero_count(payload@, z as int);
    }
    let mut cur: Vec<u8> = payload.clone();
    proof {
        assert(cur@ =~= payload@);
    }
    let mut little: Vec<u8> = Vec::new();
    let mut t: usize = 0;
    while t < 35
        invariant
            t <= 35,
            little@.len() == t,
            b58_little(payload@, 35) =~= little@ + b58_little(cur@, (35 - t) as nat),
        decreases 35 - t,
    {
        let ghost pre = cur@;
        let qr = div58_exec(&cur);
        little.push(qr.1);
        cur = qr.0;
        proof {
            assert(b58_little(pre, (35 - t) as nat) =~= seq![div58(pre).1] + b58_little(
                div58(pre).0,
                (35 - t - 1) as nat,
            ));
            assert(b58_little(payload@, 35) =~= little@ + b58_little(
                cur@,
                (35 - t - 1) as nat,
            ));
        }
        t = t + 1;
    }
    proof {
        assert(b58_little(cur@, 0) =~= Seq::<u8>::empty());
        assert(little@ =~= b58_little(payload@, 35));
    }
    let ghost full_little = little@;
    while little.len() > 0 && little[little.len() - 1] == 0
        invariant
            trim_trailing_zeros(full_little) =~= trim_trailing_zeros(little@),
        decreases little@.len(),
    {
        little.pop();
    }
    proof {
        assert(trim_trailing_zeros(little@) =~= little@);
        assert(little@ =~= trim_trailing_zeros(b58_little(payload@, 35)));
    }
    let mut out: Vec<u8> = Vec::new();
    let mut zi: usize = 0;
    while zi < z
        invariant
            zi <= z,
            out@ =~= Seq::new(zi as nat, |_i: int| 49u8),
        decreases z - zi,
    {
        out.push(49);
        proof {
            assert(out@ =~= Seq::new((zi + 1) as nat, |_i: int| 49u8));
        }
        zi = zi + 1;
    }
    let ghost ones = out@;
    let nl = little.len();
    let mut t2: usize = 0;
    while t2 < nl
        invariant
            t2 <= nl,
            nl == little@.len(),
            out@ =~= ones + little@.reverse().take(t2 as int).map(
                |_i: int, d: u8| base58_byte_of(d),
            ),
        decreases nl - t2,
    {
        out.push(base58_byte(little[nl - 1 - t2]));
        proof {
            assert(little@.reverse()[t2 as int] == little@[nl - 1 - t2]);
            assert(out@ =~= ones + little@.reverse().take(t2 + 1).map(
                |_i: int, d: u8| base58_byte_of(d),
            ));
        }
        t2 = t2 + 1;
    }
    proof {
        assert(little@.reverse().take(nl as int) =~= little@.reverse());
        assert(out@ =~= base58_bytes(version, h@));
    }
    out
}

/// Whether two byte slices hold the same bytes.
fn slice_eq(a: &[u8], b: &[u8]) -> (r: bool)
    ensures
        r == (a@ =~= b@),
{
    let la = a.len();
    let lb = b.len();
    if la != lb {
        return false;
    }
    let mut k: usize = 0;
    while k < la
        invariant
            k <= la,
            la == a@.len(),
            la == b@.len(),
            forall|j: int| 0 <= j < k ==> a@[j] == b@[j],
        decreases la - k,
    {
        if a[k] != b[k] {
            return false;
        }
        k = k + 1;
    }
    true
}

/// The textual form of an address for a network, as ASCII bytes.
pub open spec fn display_bytes(a: BitcoinAddress, net: Network) -> Seq<u8> {
    match a {
        BitcoinAddress::P2wpkhV0(h) => bech32_bytes(net, h@),
        BitcoinAddress::P2pkh(h) => base58_bytes(p2pkh_version(net), h@),
        BitcoinAddress::P2sh(h) => base58_bytes(p2sh_version(net), h@),
    }
}

/// The textual form of an address for a network.
pub open spec fn display_chars(a: BitcoinAddress, net: Network) -> Seq<char> {
    display_bytes(a, net).map(|_i: int, b: u8| b as char)
}

/// Relies on String::from_utf8: ASCII bytes decode to exactly those
/// characters.
#[verifier::external_body]
fn ascii_to_string(bytes: Vec<u8>) -> (r: String)
    requires
        forall|i: int| 0 <= i < bytes@.len() ==> bytes@[i] < 128,
    ensures
        r@ =~= bytes@.map(|_i: int, b: u8| b as char),
{
    match String::from_utf8(bytes) {
        Ok(s) => s,
        Err(_) => String::new(),
    }
}

/// Every byte of every encoded address is ASCII.
pub proof fn lemma_display_bytes_ascii(a: BitcoinAddress, net: Network)
    ensures
        forall|i: int|
            0 <= i < display_bytes(a, net).len() ==> (#[trigger] display_bytes(a, net)[i])
                < 128,
{
    assert(forall|v: u8| base58_byte_of(v) < 128);
    assert(forall|v: u8| bech32_byte_of(v) < 128);
    assert forall|i: int|
        0 <= i < display_bytes(a, net).len() implies (#[trigger] display_bytes(a, net)[i])
        < 128 by {
        match a {
            BitcoinAddress::P2wpkhV0(h) => {
                let hrp = hrp_of(net);
                let data = bech32_data(h@);
                let mapped = (data + bech32_checksum(hrp, data)).map(
                    |_k: int, v: u8| bech32_byte_of(v),
                );
                if i < hrp.len() {
                    assert(display_bytes(a, net)[i] == hrp[i]);
                } else if i == hrp.len() {
                } else {
                    assert(display_bytes(a, net)[i] == mapped[i - hrp.len() - 1]);
                }
            },
            BitcoinAddress::P2pkh(h) => {
                lemma_base58_bytes_ascii(p2pkh_version(net), h@, i);
            },
            BitcoinAddress::P2sh(h) => {
                lemma_base58_bytes_ascii(p2sh_version(net), h@, i);
            },
        }
    }
}

proof fn lemma_base58_bytes_ascii(version: u8, h: Seq<u8>, i: int)
    requires
        0 <= i < base58_bytes(version, h).len(),
    ensures
        base58_bytes(version, h)[i] < 128,
{
    assert(forall|v: u8| base58_byte_of(v) < 128);
    let payload = base58check_payload(version, h);
    let ones = Seq::new(leading_zero_count(payload) as nat, |_k: int| 49u8);
    let digits = trim_trailing_zeros(b58_little(payload, 35)).reverse().map(
        |_k: int, d: u8| base58_byte_of(d),
    );
    if i < ones.len() {
        assert(base58_bytes(version, h)[i] == 49);
    } else {
        assert(base58_bytes(version, h)[i] == digits[i - ones.len()]);
    }
}

/// Every character of every displayed address is ASCII.
proof fn lemma_display_chars_ascii(a: BitcoinAddress, net: Network)
    ensures
        vstd::utf8::is_ascii_chars(display_chars(a, net)),
        display_chars(a, net).len() == display_bytes(a, net).len(),
{
    lemma_display_bytes_ascii(a, net);
    let chars = display_chars(a, net);
    assert forall|i: int| 0 <= i < chars.len() implies '\0' <= #[trigger] chars[i]
        <= '\u{7f}' by {
        assert(chars[i] == display_bytes(a, net)[i] as char);
        assert(display_bytes(a, net)[i] < 128);
    }
}

/// For ASCII text, bytes and characters determine each other.
proof fn lemma_ascii_roundtrip(s: Seq<char>, b: Seq<u8>)
    requires
        vstd::utf8::is_ascii_chars(s),
        b =~= Seq::new(s.len(), |i: int| s[i] as u8),
        forall|i: int| 0 <= i < b.len() ==> b[i] < 128,
    ensures
        s =~= b.map(|_i: int, x: u8| x as char),
{
    assert forall|i: int| 0 <= i < s.len() implies s[i] == b.map(
        |_k: int, x: u8| x as char,
    )[i] by {
        assert('\0' <= s[i] <= '\u{7f}');
    }
}

impl BitcoinAddress {
    /// The textual form of this address on the given network: bech32 for
    /// segwit, base58check for the legacy kinds.
    pub fn display(&self, network: Network) -> (r: String)
        ensures
            r@ =~= display_chars(*self, network),
    {
        let bytes: Vec<u8> = match self {
            BitcoinAddress::P2wpkhV0(h) => bech32_encode(network, h),
            BitcoinAddress::P2pkh(h) => base58check_encode(
                p2pkh_version_exec(network),
                h,
            ),
            BitcoinAddress::P2sh(h) => base58check_encode(p2sh_version_exec(network), h),
        };
        proof {
            lemma_display_bytes_ascii(*self, network);
            assert(bytes@ =~= display_bytes(*self, network));
        }
        ascii_to_string(bytes)
    }

    /// Parses a textual address for the given network. Exactly the canonical
    /// encodings are accepted: whenever this returns an address, displaying
    /// it on the same network reproduces the input; and every displayed
    /// native segwit address parses back to the address it came from.
    pub fn parse(address: &str, network: Network) -> (r: Result<
        BitcoinAddress,
        ParseAddressError,
    >)
        ensures
            r matches Ok(a) ==> address@ =~= display_chars(a, network),
            forall|h: [u8; 20]|
                address@ =~= display_chars(BitcoinAddress::P2wpkhV0(h), network) ==> r
                    == Ok::<BitcoinAddress, ParseAddressError>(BitcoinAddress::P2wpkhV0(h)),
    {
        let ghost net = network;
        if !address.is_ascii() {
            proof {
                assert forall|h: [u8; 20]| !(address@ =~= display_chars(
                    BitcoinAddress::P2wpkhV0(h),
                    net,
                )) by {
                    if address@ =~= display_chars(BitcoinAddress::P2wpkhV0(h), net) {
                        lemma_display_chars_ascii(BitcoinAddress::P2wpkhV0(h), net);
                    }
                }
            }
            return Err(ParseAddressError::Malformed);
        }
        let bytes = address.as_bytes();
        proof {
            vstd::string::is_ascii_spec_bytes(address);
            assert forall|h: [u8; 20]|
                address@ =~= display_chars(BitcoinAddress::P2wpkhV0(h), net)
                    implies bytes@ =~= bech32_string_bytes(hrp_of(net), h@) by {
                if address@ =~= display_chars(BitcoinAddress::P2wpkhV0(h), net) {
                    lemma_display_bytes_ascii(BitcoinAddress::P2wpkhV0(h), net);
                    let db = display_bytes(BitcoinAddress::P2wpkhV0(h), net);
                    assert forall|i: int| 0 <= i < db.len() implies bytes@[i] == db[i] by {
                        assert(address@[i] == db[i] as char);
                        assert(bytes@[i] == address@[i] as u8);
                    }
                }
            }
        }
        let hrp = hrp_vec(network);
        let nh = hrp.len();
        let is_bech32 = bytes.len() > nh && {
            let mut same = bytes[nh] == 49;
            let mut k: usize = 0;
            while k < nh
                invariant
                    k <= nh,
                    nh == hrp@.len(),
                    nh < bytes@.len(),
                    same == (bytes@[nh as int] == 49 && forall|j: int|
                        0 <= j < k ==> bytes@[j] == hrp@[j]),
                decreases nh - k,
            {
                if bytes[k] != hrp[k] {
                    same = false;
                }
                k = k + 1;
            }
            same
        };
        proof {
            assert forall|h: [u8; 20]|
                bytes@ =~= bech32_string_bytes(hrp_of(net), h@) implies is_bech32 by {
                if bytes@ =~= bech32_string_bytes(hrp_of(net), h@) {
                    lemma_bech32_payload_values(hrp_of(net), h@);
                    assert(bytes@.len() == hrp@.len() + 40);
                    assert(bytes@[nh as int] == 49);
                    assert(forall|j: int| 0 <= j < nh ==> bytes@[j] == hrp@[j]);
                }
            }
        }
        let cand: BitcoinAddress;
        let ghost decoded: [u8; 20];
        if is_bech32 {
            match parse_bech32(bytes, &hrp) {
                Ok(h) => {
                    cand = BitcoinAddress::P2wpkhV0(h);
                    proof {
                        decoded = h;
                    }
                },
                Err(e) => {
                    proof {
                        assert forall|h: [u8; 20]| !(bytes@ =~= bech32_string_bytes(
                            hrp_of(net),
                            h@,
                        )) by {
                            if bytes@ =~= bech32_string_bytes(hrp_of(net), h@) {
                                assert(hrp@ =~= hrp_of(net));
                            }
                        }
                    }
                    return Err(e);
                },
            }
        } else {
            proof {
                decoded = vstd::pervasive::arbitrary();
            }
            match base58check_decode(bytes) {
                Ok((version, h)) => {
                    if version == p2pkh_version_exec(network) {
                        cand = BitcoinAddress::P2pkh(h);
                    } else if version == p2sh_version_exec(network) {
                        cand = BitcoinAddress::P2sh(h);
                    } else if version == 0x00 || version == 0x05 || version == 0x6f
                        || version == 0xc4 {
                        return Err(ParseAddressError::WrongNetwork);
                    } else {
                        return Err(ParseAddressError::UnsupportedVersion(version));
                    }
                },
                Err(e) => {
                    return Err(e);
                },
            }
        }
        let canonical: Vec<u8> = match &cand {
            BitcoinAddress::P2wpkhV0(h) => bech32_encode(network, h),
            BitcoinAddress::P2pkh(h) => base58check_encode(
                p2pkh_version_exec(network),
                h,
            ),
            BitcoinAddress::P2sh(h) => base58check_encode(p2sh_version_exec(network), h),
        };
        if slice_eq(bytes, canonical.as_slice()) {
            proof {
                lemma_display_bytes_ascii(cand, net);
                assert(canonical@ =~= display_bytes(cand, net));
                assert(bytes@ =~= Seq::new(address@.len(), |i: int| address@[i] as u8));
                lemma_ascii_roundtrip(address@, bytes@);
                assert forall|h: [u8; 20]|
                    address@ =~= display_chars(BitcoinAddress::P2wpkhV0(h), net)
                        implies cand == BitcoinAddress::P2wpkhV0(h) by {
                    if address@ =~= display_chars(BitcoinAddress::P2wpkhV0(h), net) {
                        assert(bytes@ =~= bech32_string_bytes(hrp_of(net), h@));
                        assert(is_bech32);
                        assert(hrp@ =~= hrp_of(net));
                        assert(decoded@ =~= h@);
                        assert(decoded == h);
                    }
                }
            }
            Ok(cand)
        } else {
            proof {
                assert forall|h: [u8; 20]| !(bytes@ =~= bech32_string_bytes(
                    hrp_of(net),
                    h@,
                )) by {
                    if bytes@ =~= bech32_string_bytes(hrp_of(net), h@) {
                        assert(is_bech32);
                        assert(decoded@ =~= h@);
                        assert(decoded == h);
                        assert(cand == BitcoinAddress::P2wpkhV0(h));
                        assert(canonical@ =~= bech32_bytes(net, h@));
                    }
                }
            }
            Err(ParseAddressError::Malformed)
        }
    }
}

/// Every 5-bit group of a regrouped hash really is below 32./// Every 5-bit group of a regrouped hash really is below 32.
pub proof fn lemma_to5_values(h: Seq<u8>)
    requires
        h.len() == 20,
    ensures
        forall|i: int| 0 <= i < 32 ==> (#[trigger] to5(h)[i]) < 32,
{
    assert forall|i: int| 0 <= i < 32 implies (#[trigger] to5(h)[i]) < 32 by {
        vstd::arithmetic::div_mod::lemma_fundamental_div_mod(5 * i, 8);
        let j = (5 * i) / 8;
        let off = (5 * i) % 8;
        assert(0 <= j < 20);
        if off <= 3 {
            let x: u32 = (h[j] as u32) >> ((3 - off) as u32);
            assert(x & 31 < 32) by (bit_vector);
        } else {
            let x: u32 = ((h[j] as u32) << ((off - 3) as u32)) | ((h[j + 1] as u32) >> ((
            11 - off) as u32));
            assert(x & 31 < 32) by (bit_vector);
        }
    }
}

/// Every payload group of a bech32 string is below 32.
pub proof fn lemma_bech32_payload_values(hrp: Seq<u8>, h: Seq<u8>)
    requires
        h.len() == 20,
    ensures
        bech32_payload(hrp, h).len() == 39,
        forall|k: int| 0 <= k < 39 ==> (#[trigger] bech32_payload(hrp, h)[k]) < 32,
{
    lemma_to5_values(h);
    let pm = polymod(
        hrp_expand(hrp) + bech32_data(h) + seq![0u8, 0u8, 0u8, 0u8, 0u8, 0u8],
        1,
    ) ^ 1;
    assert(((pm >> 25) & 31) < 32 && ((pm >> 20) & 31) < 32 && ((pm >> 15) & 31) < 32 && ((
    pm >> 10) & 31) < 32 && ((pm >> 5) & 31) < 32 && (pm & 31) < 32) by (bit_vector);
    assert forall|k: int| 0 <= k < 39 implies (#[trigger] bech32_payload(hrp, h)[k])
        < 32 by {
        if k == 0 {
        } else if k < 33 {
            assert(bech32_payload(hrp, h)[k] == to5(h)[k - 1]);
        } else {
            assert(bech32_payload(hrp, h)[k] == bech32_checksum(hrp, bech32_data(h))[k
                - 33]);
        }
    }
}

/// Reading a character set byte back gives the group it encodes.
pub proof fn lemma_bech32_charset_inverse()
    ensures
        forall|v: u8| v < 32 ==> #[trigger] bech32_value_of(bech32_byte_of(v)) == v,
{
}

/// Decodes the data part of a bech32 string with the expected prefix and
/// recovers the 20-byte witness program; rejects wrong witness versions,
/// lengths and checksums.
fn parse_bech32(bytes: &[u8], hrp: &Vec<u8>) -> (r: Result<[u8; 20], ParseAddressError>)
    requires
        hrp@.len() < bytes@.len(),
    ensures
        forall|h: [u8; 20]|
            bytes@ =~= bech32_string_bytes(hrp@, h@) ==> (r matches Ok(h2) && h2@ =~= h@),
{
    let nh = hrp.len();
    let rest_len = bytes.len() - nh - 1;
    if rest_len < 7 {
        proof {
            assert forall|h: [u8; 20]| !(bytes@ =~= bech32_string_bytes(hrp@, h@)) by {
                if bytes@ =~= bech32_string_bytes(hrp@, h@) {
                    lemma_bech32_payload_values(hrp@, h@);
                    assert(bytes@.len() == hrp@.len() + 40);
                }
            }
        }
        return Err(ParseAddressError::Malformed);
    }
    let mut groups: Vec<u8> = Vec::new();
    let mut k: usize = nh + 1;
    while k < bytes.len()
        invariant
            nh == hrp@.len(),
            nh + 1 <= k <= bytes@.len(),
            groups@.len() == k - nh - 1,
            forall|j: int| 0 <= j < groups@.len() ==> (#[trigger] groups@[j]) < 32,
            forall|j: int|
                0 <= j < groups@.len() ==> (#[trigger] groups@[j]) == bech32_value_of(
                    bytes@[nh + 1 + j],
                ),
        decreases bytes@.len() - k,
    {
        let v = bech32_value(bytes[k]);
        if v == 255 {
            proof {
                let bad = k as int;
                assert forall|h: [u8; 20]| !(bytes@ =~= bech32_string_bytes(
                    hrp@,
                    h@,
                )) by {
                    if bytes@ =~= bech32_string_bytes(hrp@, h@) {
                        lemma_bech32_payload_values(hrp@, h@);
                        lemma_bech32_charset_inverse();
                        let payload = bech32_payload(hrp@, h@);
                        assert(bytes@[bad] == bech32_byte_of(payload[bad - nh - 1]));
                        assert(bech32_value_of(bytes@[bad]) == payload[bad - nh - 1]);
                        assert(payload[bad - nh - 1] < 32);
                    }
                }
            }
            return Err(ParseAddressError::Malformed);
        }
        assert(v < 32);
        groups.push(v);
        k = k + 1;
    }
    proof {
        assert forall|h: [u8; 20]|
            bytes@ =~= bech32_string_bytes(hrp@, h@) implies groups@ =~= bech32_payload(
            hrp@,
            h@,
        ) by {
            if bytes@ =~= bech32_string_bytes(hrp@, h@) {
                lemma_bech32_payload_values(hrp@, h@);
                lemma_bech32_charset_inverse();
                let payload = bech32_payload(hrp@, h@);
                assert forall|j: int| 0 <= j < 39 implies groups@[j] == payload[j] by {
                    assert(bytes@[nh + 1 + j] == bech32_byte_of(payload[j]));
                }
            }
        }
    }
    let version = groups[0];
    if version != 0 {
        proof {
            assert forall|h: [u8; 20]| !(bytes@ =~= bech32_string_bytes(hrp@, h@)) by {
                if bytes@ =~= bech32_string_bytes(hrp@, h@) {
                    assert(bech32_payload(hrp@, h@)[0] == 0);
                }
            }
        }
        return Err(ParseAddressError::UnsupportedWitnessVersion(version));
    }
    if groups.len() - 7 != 32 {
        let plen = (groups.len() - 7) as u128;
        proof {
            assert(plen * 5 / 8 <= plen) by (nonlinear_arith);
            assert forall|h: [u8; 20]| !(bytes@ =~= bech32_string_bytes(hrp@, h@)) by {
                if bytes@ =~= bech32_string_bytes(hrp@, h@) {
                    lemma_bech32_payload_values(hrp@, h@);
                }
            }
        }
        return Err(ParseAddressError::BadWitnessLength((plen * 5 / 8) as usize));
    }
    let mut data: Vec<u8> = Vec::new();
    let mut k2: usize = 0;
    while k2 < 33
        invariant
            k2 <= 33,
            groups@.len() == 39,
            data@.len() == k2,
            forall|j: int| 0 <= j < groups@.len() ==> (#[trigger] groups@[j]) < 32,
            forall|j: int| 0 <= j < k2 ==> (#[trigger] data@[j]) == groups@[j],
        decreases 33 - k2,
    {
        data.push(groups[k2]);
        k2 = k2 + 1;
    }
    proof {
        assert(data@ =~= groups@.subrange(0, 33));
    }
    let full = checksum_input(hrp, &data);
    let pm = polymod_exec(&full, 1) ^ 1;
    let expect: [u8; 6] = [
        ((pm >> 25) & 31) as u8,
        ((pm >> 20) & 31) as u8,
        ((pm >> 15) & 31) as u8,
        ((pm >> 10) & 31) as u8,
        ((pm >> 5) & 31) as u8,
        (pm & 31) as u8,
    ];
    proof {
        assert forall|h: [u8; 20]|
            bytes@ =~= bech32_string_bytes(hrp@, h@) implies data@ =~= bech32_data(h@)
            && (forall|c: int|
            0 <= c < 6 ==> groups@[33 + c] == bech32_checksum(hrp@, bech32_data(h@))[c])
            by {
            if bytes@ =~= bech32_string_bytes(hrp@, h@) {
                let payload = bech32_payload(hrp@, h@);
                assert(groups@ =~= payload);
                assert(bech32_data(h@).len() == 33);
                assert forall|j: int| 0 <= j < 33 implies data@[j] == bech32_data(h@)[j]
                    by {
                    assert(payload[j] == bech32_data(h@)[j]);
                }
                assert(data@ =~= bech32_data(h@));
            }
        }
    }
    let mut c: usize = 0;
    while c < 6
        invariant
            c <= 6,
            groups@.len() == 39,
            full@ =~= hrp_expand(hrp@) + data@ + seq![0u8, 0u8, 0u8, 0u8, 0u8, 0u8],
            pm == polymod(full@, 1) ^ 1,
            expect@[0] == ((pm >> 25) & 31) as u8,
            expect@[1] == ((pm >> 20) & 31) as u8,
            expect@[2] == ((pm >> 15) & 31) as u8,
            expect@[3] == ((pm >> 10) & 31) as u8,
            expect@[4] == ((pm >> 5) & 31) as u8,
            expect@[5] == (pm & 31) as u8,
            forall|h: [u8; 20]|
                bytes@ =~= bech32_string_bytes(hrp@, h@) ==> data@ =~= bech32_data(h@)
                    && (forall|c2: int|
                    0 <= c2 < 6 ==> groups@[33 + c2] == bech32_checksum(
                        hrp@,
                        bech32_data(h@),
                    )[c2]),
        decreases 6 - c,
    {
        if groups[33 + c] != expect[c] {
            proof {
                let bad = c as int;
                assert forall|h: [u8; 20]| !(bytes@ =~= bech32_string_bytes(
                    hrp@,
                    h@,
                )) by {
                    if bytes@ =~= bech32_string_bytes(hrp@, h@) {
                        assert(data@ =~= bech32_data(h@));
                        assert(groups@[33 + bad] == bech32_checksum(
                            hrp@,
                            bech32_data(h@),
                        )[bad]);
                        assert(expect@[bad] == bech32_checksum(hrp@, bech32_data(h@))[bad]);
                    }
                }
            }
            return Err(ParseAddressError::BadChecksum);
        }
        c = c + 1;
    }
    let mut hb: Vec<u8> = Vec::new();
    let mut j: usize = 0;
    while j < 20
        invariant
            j <= 20,
            hb@.len() == j,
            groups@.len() == 39,
            forall|m: int| 0 <= m < groups@.len() ==> (#[trigger] groups@[m]) < 32,
            forall|m: int|
                0 <= m < j ==> (#[trigger] hb@[m]) == byte_at(
                    groups@.subrange(1, 39),
                    m,
                ),
        decreases 20 - j,
    {
        let gi = (8 * j) / 5;
        let off = (8 * j) % 5;
        proof {
            vstd::arithmetic::div_mod::lemma_fundamental_div_mod(8 * j as int, 5);
        }
        let b: u8 = if off <= 2 {
            (((((groups[1 + gi] as u32) << ((3 + off) as u32)) | ((groups[2 + gi]
                as u32) >> ((2 - off) as u32))) & 255)) as u8
        } else {
            (((((groups[1 + gi] as u32) << ((3 + off) as u32)) | ((groups[2 + gi]
                as u32) << ((off - 2) as u32)) | ((groups[3 + gi] as u32) >> ((7
                - off) as u32))) & 255)) as u8
        };
        proof {
            let gprog = groups@.subrange(1, 39);
            assert(gprog[gi as int] == groups@[1 + gi]);
            assert(gprog[gi + 1] == groups@[2 + gi]);
            if off > 2 {
                assert(gprog[gi + 2] == groups@[3 + gi]);
            }
            assert(b == byte_at(gprog, j as int));
        }
        hb.push(b);
        j = j + 1;
    }
    let h: [u8; 20] = [hb[0], hb[1], hb[2], hb[3], hb[4], hb[5], hb[6], hb[7], hb[8], hb[9], hb[10], hb[11], hb[12], hb[13], hb[14], hb[15], hb[16], hb[17], hb[18], hb[19]];
    proof {
        assert forall|m: int| 0 <= m < 20 implies h@[m] == hb@[m] by {
        assert(h[0] == hb@[0]);
        assert(h[1] == hb@[1]);
        assert(h[2] == hb@[2]);
        assert(h[3] == hb@[3]);
        assert(h[4] == hb@[4]);
        assert(h[5] == hb@[5]);
        assert(h[6] == hb@[6]);
        assert(h[7] == hb@[7]);
        assert(h[8] == hb@[8]);
        assert(h[9] == hb@[9]);
        assert(h[10] == hb@[10]);
        assert(h[11] == hb@[11]);
        assert(h[12] == hb@[12]);
        assert(h[13] == hb@[13]);
        assert(h[14] == hb@[14]);
        assert(h[15] == hb@[15]);
        assert(h[16] == hb@[16]);
        assert(h[17] == hb@[17]);
        assert(h[18] == hb@[18]);
        assert(h[19] == hb@[19]);
        }
        assert(h@ =~= hb@);
        assert forall|hh: [u8; 20]|
            bytes@ =~= bech32_string_bytes(hrp@, hh@) implies h@ =~= hh@ by {
            if bytes@ =~= bech32_string_bytes(hrp@, hh@) {
                let payload = bech32_payload(hrp@, hh@);
                assert(groups@ =~= payload);
                let gprog = groups@.subrange(1, 39);
                lemma_bech32_payload_values(hrp@, hh@);
                assert forall|idx: int| 0 <= idx < 32 implies gprog[idx] == to5(
                    hh@,
                )[idx] by {
                    assert(gprog[idx] == payload[idx + 1]);
                    assert(payload[idx + 1] == bech32_data(hh@)[idx + 1]);
                }
                assert forall|m: int| 0 <= m < 20 implies byte_at(gprog, m) == byte_at(
                    to5(hh@),
                    m,
                ) by {
                    vstd::arithmetic::div_mod::lemma_fundamental_div_mod(8 * m, 5);
                    let i = (8 * m) / 5;
                    let off = (8 * m) % 5;
                    assert(5 * i + off == 8 * m);
                    if off <= 2 {
                        assert(i + 1 < 32);
                    } else {
                        assert(5 * i <= 8 * m - 3);
                        assert(i + 2 < 32);
                    }
                }
                lemma_from5_to5(hh@);
                assert forall|m: int| 0 <= m < 20 implies h@[m] == hh@[m] by {
                    assert(h@[m] == byte_at(gprog, m));
                    assert(byte_at(to5(hh@), m) == hh@[m]);
                }
            }
        }
    }
    Ok(h)
}

/// Decodes a base58check string to its version byte and 20-byte hash;
/// rejects stray characters, oversized numbers, payloads that are not 25
/// bytes, and checksum mismatches.
fn base58check_decode(bytes: &[u8]) -> (r: Result<(u8, [u8; 20]), ParseAddressError>) {
    let n = bytes.len();
    if n == 0 {
        return Err(ParseAddressError::Malformed);
    }
    let mut num: Vec<u8> = vec![0u8; 25];
    let mut k: usize = 0;
    while k < n
        invariant
            k <= n,
            n == bytes@.len(),
            num@.len() == 25,
        decreases n - k,
    {
        let d = base58_value(bytes[k]);
        if d == 255 {
            return Err(ParseAddressError::Malformed);
        }
        assert(d < 58);
        let mut carry: u32 = d as u32;
        let mut idx: usize = 25;
        while idx > 0
            invariant
                idx <= 25,
                num@.len() == 25,
                carry <= 0xffff,
            decreases idx,
        {
            idx = idx - 1;
            let v: u32 = (num[idx] as u32) * 58 + carry;
            num.set(idx, (v & 255) as u8);
            proof {
                let vv = v;
                assert(vv & 255 < 256) by (bit_vector);
                assert(vv >> 8 <= 0xffff) by (bit_vector)
                    requires
                        vv <= 255 * 58 + 0xffff,
                ;
            }
            carry = v >> 8;
        }
        if carry != 0 {
            return Err(ParseAddressError::Malformed);
        }
        k = k + 1;
    }
    let mut body: Vec<u8> = Vec::new();
    let mut k2: usize = 0;
    while k2 < 21
        invariant
            k2 <= 21,
            num@.len() == 25,
            body@.len() == k2,
        decreases 21 - k2,
    {
        body.push(num[k2]);
        k2 = k2 + 1;
    }
    let chk = sha256d(body.as_slice());
    let mut c: usize = 0;
    while c < 4
        invariant
            c <= 4,
            num@.len() == 25,
        decreases 4 - c,
    {
        if num[21 + c] != chk[c] {
            return Err(ParseAddressError::BadChecksum);
        }
        c = c + 1;
    }
    let version = num[0];
    let h: [u8; 20] = [num[1], num[2], num[3], num[4], num[5], num[6], num[7], num[8], num[9], num[10], num[11], num[12], num[13], num[14], num[15], num[16], num[17], num[18], num[19], num[20]];
    Ok((version, h))
}

/// The bech32 address holding the HASH160 of a public key, for a network.
pub fn network_and_public_key_to_p2wpkh(network: Network, public_key: &[u8]) -> (r: String)
    ensures
        r@ =~= bech32_bytes(network, hash160_of(public_key@)).map(
            |_i: int, b: u8| b as char,
        ),
{
    let h = hash160(public_key);
    let addr = BitcoinAddress::P2wpkhV0(h);
    let s = addr.display(network);
    proof {
        assert(display_chars(addr, network) =~= bech32_bytes(
            network,
            hash160_of(public_key@),
        ).map(|_i: int, b: u8| b as char));
    }
    s
}

} // verus!
