//! The bech32m checksum and the `prefix:symbols` text it is rendered into.

use vstd::prelude::*;
use vstd::string::StringExecFns;
use vstd::string::StringSliceAdditionalSpecFns;

verus! {

/// The constant that the bech32m variant XORs into the final checksum state.
pub const BECH32M_CONST: u32 = 0x2bc830a3;

/// The constant of plain bech32.
pub const BECH32_CONST: u32 = 1;

/// `g` when bit `i` of `b` is set, else zero.
pub open spec fn gen_mix(b: u32, i: u32, g: u32) -> u32 {
    if (b >> i) & 1 != 0 {
        g
    } else {
        0
    }
}

/// One symbol fed into the 30-bit checksum state.
pub open spec fn polymod_step(chk: u32, v: u8) -> u32 {
    let b = chk >> 25u32;
    ((chk & 0x1ffffff) << 5u32) ^ (v as u32) ^ gen_mix(b, 0, 0x3b6a57b2) ^ gen_mix(b, 1, 0x26508e6d)
        ^ gen_mix(b, 2, 0x1ea119fa) ^ gen_mix(b, 3, 0x3d4233dd) ^ gen_mix(b, 4, 0x2a1462b3)
}

/// The checksum state after feeding all of `values`, starting from 1.
pub open spec fn polymod(values: Seq<u8>) -> u32
    decreases values.len(),
{
    if values.len() == 0 {
        1
    } else {
        polymod_step(polymod(values.drop_last()), values.last())
    }
}

/// Each prefix byte's high three bits, a zero, then each byte's low five bits.
pub open spec fn hrp_expand_spec(b: Seq<u8>) -> Seq<u8> {
    Seq::new(b.len(), |i: int| b[i] >> 5u8) + seq![0u8] + Seq::new(b.len(), |i: int| b[i] & 0x1f)
}

/// The six five-bit symbols of `polymod(values ++ six zeros) ^ constant`,
/// most significant first.
pub open spec fn checksum_spec(values: Seq<u8>, constant: u32) -> Seq<u8> {
    let pm = polymod(values + Seq::new(6, |i: int| 0u8)) ^ constant;
    Seq::new(6, |i: int| ((pm >> ((5 * (5 - i)) as u32)) & 0x1f) as u8)
}

/// The bech32m checksum of `data` under the prefix whose bytes are `hrp`.
pub open spec fn bech32m_checksum(hrp: Seq<u8>, data: Seq<u8>) -> Seq<u8> {
    checksum_spec(hrp_expand_spec(hrp) + data, BECH32M_CONST)
}

/// The character of the 32-symbol alphabet that stands for `d`.
pub open spec fn charset_char(d: u8) -> char {
    match d {
        0 => 'q',
        1 => 'p',
        2 => 'z',
        3 => 'r',
        4 => 'y',
        5 => '9',
        6 => 'x',
        7 => '8',
        8 => 'g',
        9 => 'f',
        10 => '2',
        11 => 't',
        12 => 'v',
        13 => 'd',
        14 => 'w',
        15 => '0',
        16 => 's',
        17 => '3',
        18 => 'j',
        19 => 'n',
        20 => '5',
        21 => '4',
        22 => 'k',
        23 => 'h',
        24 => 'c',
        25 => 'e',
        26 => '6',
        27 => 'm',
        28 => 'u',
        29 => 'a',
        30 => '7',
        _ => 'l',
    }
}

/// `c` is one of the 32 characters of the alphabet.
pub open spec fn in_alphabet(c: char) -> bool {
    exists|d: u8| d < 32 && charset_char(d) == c
}

pub open spec fn all_below_32(s: Seq<u8>) -> bool {
    forall|i: int| 0 <= i < s.len() ==> #[trigger] s[i] < 32
}

/// The text of a prefix and payload: the prefix, `:`, then the payload and
/// its checksum in the alphabet.
pub open spec fn encode_spec(hrp: Seq<char>, hrp_bytes: Seq<u8>, data: Seq<u8>) -> Seq<char> {
    hrp + seq![':'] + (data + bech32m_checksum(hrp_bytes, data)).map_values(
        |d: u8| charset_char(d),
    )
}

/// Relies on std's `String::push`: appends one character.
#[verifier::external_body]
fn push_char(s: &mut String, c: char)
    ensures
        final(s)@ == old(s)@.push(c),
{
    s.push(c)
}

fn symbol_char(d: u8) -> (c: char)
    requires
        d < 32,
    ensures
        c == charset_char(d),
{
    match d {
        0 => 'q',
        1 => 'p',
        2 => 'z',
        3 => 'r',
        4 => 'y',
        5 => '9',
        6 => 'x',
        7 => '8',
        8 => 'g',
        9 => 'f',
        10 => '2',
        11 => 't',
        12 => 'v',
        13 => 'd',
        14 => 'w',
        15 => '0',
        16 => 's',
        17 => '3',
        18 => 'j',
        19 => 'n',
        20 => '5',
        21 => '4',
        22 => 'k',
        23 => 'h',
        24 => 'c',
        25 => 'e',
        26 => '6',
        27 => 'm',
        28 => 'u',
        29 => 'a',
        30 => '7',
        _ => 'l',
    }
}

/// The checksum state of `values` under the bech32 generator polynomial.
pub fn bech32_polymod(values: &[u8]) -> (r: u32)
    ensures
        r == polymod(values@),
{
    let mut chk: u32 = 1;
    let mut i: usize = 0;
    while i < values.len()
        invariant
            i <= values.len(),
            chk == polymod(values@.take(i as int)),
        decreases values.len() - i,
    {
        proof {
            assert(values@.take(i as int + 1).drop_last() == values@.take(i as int));
        }
        let v = values[i];
        let b = chk >> 25u32;
        let m0: u32 = if (b >> 0u32) & 1 != 0 { 0x3b6a57b2 } else { 0 };
        let m1: u32 = if (b >> 1u32) & 1 != 0 { 0x26508e6d } else { 0 };
        let m2: u32 = if (b >> 2u32) & 1 != 0 { 0x1ea119fa } else { 0 };
        let m3: u32 = if (b >> 3u32) & 1 != 0 { 0x3d4233dd } else { 0 };
        let m4: u32 = if (b >> 4u32) & 1 != 0 { 0x2a1462b3 } else { 0 };
        chk = ((chk & 0x1ffffff) << 5u32) ^ (v as u32) ^ m0 ^ m1 ^ m2 ^ m3 ^ m4;
        i = i + 1;
    }
    proof {
        assert(values@.take(values@.len() as int) == values@);
    }
    chk
}

/// Expands a prefix for the checksum: each byte's high three bits, a zero
/// separator, then each byte's low five bits.
pub fn bech32_hrp_expand(hrp: &str) -> (r: Vec<u8>)
    ensures
        r@ == hrp_expand_spec(hrp.spec_bytes()),
{
    let bytes = hrp.as_bytes();
    let mut v: Vec<u8> = Vec::new();
    let mut i: usize = 0;
    while i < bytes.len()
        invariant
            i <= bytes.len(),
            bytes@ == hrp.spec_bytes(),
            v@ == Seq::new(i as nat, |k: int| bytes@[k] >> 5u8),
        decreases bytes.len() - i,
    {
        v.push(bytes[i] >> 5u8);
        i = i + 1;
        proof {
            assert(v@ =~= Seq::new(i as nat, |k: int| bytes@[k] >> 5u8));
        }
    }
    v.push(0u8);
    let ghost head = v@;
    let mut j: usize = 0;
    while j < bytes.len()
        invariant
            j <= bytes.len(),
            bytes@ == hrp.spec_bytes(),
            head == Seq::new(bytes@.len(), |k: int| bytes@[k] >> 5u8) + seq![0u8],
            v@ == head + Seq::new(j as nat, |k: int| bytes@[k] & 0x1f),
        decreases bytes.len() - j,
    {
        v.push(bytes[j] & 0x1f);
        j = j + 1;
        proof {
            assert(v@ =~= head + Seq::new(j as nat, |k: int| bytes@[k] & 0x1f));
        }
    }
    proof {
        assert(v@ =~= hrp_expand_spec(hrp.spec_bytes()));
    }
    v
}

proof fn lemma_checksum_symbols_below(values: Seq<u8>, constant: u32)
    ensures
        all_below_32(checksum_spec(values, constant)),
        checksum_spec(values, constant).len() == 6,
{
    let pm = polymod(values + Seq::new(6, |i: int| 0u8)) ^ constant;
    assert forall|i: int| 0 <= i < 6 implies #[trigger] checksum_spec(values, constant)[i] < 32 by {
        let s = (5 * (5 - i)) as u32;
        assert(((pm >> s) & 0x1f) < 32) by (bit_vector);
    }
}

/// The six bech32m checksum symbols of `data` under the prefix `hrp`.
pub fn bech32_create_checksum(hrp: &str, data: &[u8]) -> (r: Vec<u8>)
    ensures
        r@ == bech32m_checksum(hrp.spec_bytes(), data@),
        r@.len() == 6,
        all_below_32(r@),
{
    let mut values = bech32_hrp_expand(hrp);
    let ghost expanded = values@;
    let mut i: usize = 0;
    while i < data.len()
        invariant
            i <= data.len(),
            values@ == expanded + data@.take(i as int),
        decreases data.len() - i,
    {
        values.push(data[i]);
        i = i + 1;
        proof {
            assert(values@ =~= expanded + data@.take(i as int));
        }
    }
    proof {
        assert(data@.take(data@.len() as int) == data@);
    }
    let ghost joined = values@;
    let mut z: usize = 0;
    while z < 6
        invariant
            z <= 6,
            values@ == joined + Seq::new(z as nat, |k: int| 0u8),
        decreases 6 - z,
    {
        values.push(0u8);
        z = z + 1;
        proof {
            assert(values@ =~= joined + Seq::new(z as nat, |k: int| 0u8));
        }
    }
    let pm = bech32_polymod(values.as_slice()) ^ BECH32M_CONST;
    let mut r: Vec<u8> = Vec::new();
    let mut k: u32 = 0;
    while k < 6
        invariant
            k <= 6,
            r@ == Seq::new(k as nat, |j: int| ((pm >> ((5 * (5 - j)) as u32)) & 0x1f) as u8),
        decreases 6 - k,
    {
        r.push((#[verifier::truncate] (((pm >> (5 * (5 - k))) & 0x1f) as u8)));
        k = k + 1;
        proof {
            assert(r@ =~= Seq::new(k as nat, |j: int| ((pm >> ((5 * (5 - j)) as u32)) & 0x1f) as u8));
        }
    }
    proof {
        assert(r@ =~= bech32m_checksum(hrp.spec_bytes(), data@));
        lemma_checksum_symbols_below(joined, BECH32M_CONST);
    }
    r
}

/// Renders `data` and its bech32m checksum as `hrp:symbols`.
pub fn bech32_encode(hrp: &str, data: &[u8]) -> (r: String)
    requires
        all_below_32(data@),
    ensures
        r@ == encode_spec(hrp@, hrp.spec_bytes(), data@),
        r@.len() == hrp@.len() + 1 + data@.len() + 6,
        r@.subrange(0, hrp@.len() as int) == hrp@,
        r@[hrp@.len() as int] == ':',
        forall|i: int| hrp@.len() < i < r@.len() ==> in_alphabet(#[trigger] r@[i]),
{
    let checksum = bech32_create_checksum(hrp, data);
    let mut combined: Vec<u8> = Vec::new();
    let mut i: usize = 0;
    while i < data.len()
        invariant
            i <= data.len(),
            combined@ == data@.take(i as int),
        decreases data.len() - i,
    {
        combined.push(data[i]);
        i = i + 1;
        proof {
            assert(combined@ =~= data@.take(i as int));
        }
    }
    let mut j: usize = 0;
    while j < 6
        invariant
            j <= 6,
            checksum@.len() == 6,
            combined@ == data@ + checksum@.take(j as int),
        decreases 6 - j,
    {
        combined.push(checksum[j]);
        j = j + 1;
        proof {
            assert(combined@ =~= data@ + checksum@.take(j as int));
        }
    }
    proof {
        assert(data@.take(data@.len() as int) == data@);
        assert(checksum@.take(6) == checksum@);
        assert(all_below_32(combined@)) by {
            assert forall|k: int| 0 <= k < combined@.len() implies #[trigger] combined@[k] < 32 by {
                if k < data@.len() {
                    assert(combined@[k] == data@[k]);
                } else {
                    assert(combined@[k] == checksum@[k - data@.len()]);
                }
            }
        }
    }
    let mut out = String::from_str(hrp);
    push_char(&mut out, ':');
    let ghost head = hrp@ + seq![':'];
    let mut k: usize = 0;
    while k < combined.len()
        invariant
            k <= combined.len(),
            all_below_32(combined@),
            out@ == head + combined@.take(k as int).map_values(|d: u8| charset_char(d)),
        decreases combined.len() - k,
    {
        let c = symbol_char(combined[k]);
        push_char(&mut out, c);
        k = k + 1;
        proof {
            assert(out@ =~= head + combined@.take(k as int).map_values(|d: u8| charset_char(d)));
        }
    }
    proof {
        assert(combined@.take(combined@.len() as int) == combined@);
        assert(out@ =~= encode_spec(hrp@, hrp.spec_bytes(), data@));
        assert(out@.subrange(0, hrp@.len() as int) =~= hrp@);
        assert forall|i: int| hrp@.len() < i < out@.len() implies in_alphabet(#[trigger] out@[i]) by {
            let d = combined@[i - hrp@.len() - 1];
            assert(out@[i] == charset_char(d));
            assert(d < 32);
        }
    }
    out
}

/// Plain bech32 and bech32m never agree on a checksum: for every prefix and
/// payload, the two constants give different symbol strings.
pub proof fn lemma_bech32m_differs_from_bech32(hrp: Seq<u8>, data: Seq<u8>)
    ensures
        checksum_spec(hrp_expand_spec(hrp) + data, BECH32M_CONST) != checksum_spec(
            hrp_expand_spec(hrp) + data,
            BECH32_CONST,
        ),
{
    let values = hrp_expand_spec(hrp) + data;
    let p = polymod(values + Seq::new(6, |i: int| 0u8));
    let a = checksum_spec(values, BECH32M_CONST);
    let b = checksum_spec(values, BECH32_CONST);
    let x = p ^ BECH32M_CONST;
    let y = p ^ BECH32_CONST;
    if a == b {
        assert(a[0] == b[0] && a[1] == b[1] && a[2] == b[2] && a[3] == b[3] && a[4] == b[4] && a[5]
            == b[5]);
        assert(((x >> 25u32) & 0x1f) as u8 == ((y >> 25u32) & 0x1f) as u8);
        assert(((x >> 20u32) & 0x1f) as u8 == ((y >> 20u32) & 0x1f) as u8);
        assert(((x >> 15u32) & 0x1f) as u8 == ((y >> 15u32) & 0x1f) as u8);
        assert(((x >> 10u32) & 0x1f) as u8 == ((y >> 10u32) & 0x1f) as u8);
        assert(((x >> 5u32) & 0x1f) as u8 == ((y >> 5u32) & 0x1f) as u8);
        assert(((x >> 0u32) & 0x1f) as u8 == ((y >> 0u32) & 0x1f) as u8);
        assert(false) by (bit_vector)
            requires
                x == p ^ 0x2bc830a3u32,
                y == p ^ 1u32,
                ((x >> 25u32) & 0x1f) as u8 == ((y >> 25u32) & 0x1f) as u8,
                ((x >> 20u32) & 0x1f) as u8 == ((y >> 20u32) & 0x1f) as u8,
                ((x >> 15u32) & 0x1f) as u8 == ((y >> 15u32) & 0x1f) as u8,
                ((x >> 10u32) & 0x1f) as u8 == ((y >> 10u32) & 0x1f) as u8,
                ((x >> 5u32) & 0x1f) as u8 == ((y >> 5u32) & 0x1f) as u8,
                ((x >> 0u32) & 0x1f) as u8 == ((y >> 0u32) & 0x1f) as u8,
        ;
    }
}

} // verus!
