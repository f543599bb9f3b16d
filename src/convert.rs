//! Regrouping a sequence of fixed-width symbols into symbols of another width.

use vstd::arithmetic::power2::{lemma_pow2_adds, pow2};
use vstd::bits::{lemma_u32_pow2_no_overflow, lemma_u32_shl_is_mul};
use vstd::prelude::*;

verus! {

/// Why a regrouping was refused.
#[derive(Debug, Clone, Copy, PartialEq, Eq, Structural)]
pub enum ConvertError {
    /// A bit width outside `1..=8` was asked for.
    EncodingPrecondition,
    /// Padding was not allowed, but the leftover bits were not all zero.
    NonZeroPadding,
}

/// The low `to` bits set.
pub open spec fn low_mask(to: u32) -> u32 {
    ((1u32 << to) - 1) as u32
}

pub open spec fn valid_width(w: u32) -> bool {
    1 <= w <= 8
}

/// Emits every complete `to`-bit group held in the low `bits` bits of `acc`,
/// most significant first; gives the bit count left over and the output.
pub open spec fn emit(acc: u32, bits: u32, to: u32, out: Seq<u8>) -> (u32, Seq<u8>)
    decreases bits,
{
    if 1 <= to && bits >= to {
        let rest = (bits - to) as u32;
        emit(acc, rest, to, out.push(((acc >> rest) & low_mask(to)) as u8))
    } else {
        (bits, out)
    }
}

/// The accumulator, its pending bit count and the symbols emitted after
/// reading all of `data`, `from` bits per value.
pub open spec fn absorb(data: Seq<u8>, from: u32, to: u32) -> (u32, u32, Seq<u8>)
    decreases data.len(),
{
    if data.len() == 0 {
        (0, 0, Seq::empty())
    } else {
        let prev = absorb(data.drop_last(), from, to);
        let acc = (prev.0 << from) | (data.last() as u32);
        let emitted = emit(acc, (prev.1 + from) as u32, to, prev.2);
        (acc, emitted.0, emitted.1)
    }
}

/// The symbol that the `bits` leftover bits make when shifted up to `to` bits.
pub open spec fn tail_symbol(acc: u32, bits: u32, to: u32) -> u8 {
    ((acc << ((to - bits) as u32)) & low_mask(to)) as u8
}

/// What regrouping `data` from `from`-bit to `to`-bit symbols yields.
pub open spec fn convert_spec(data: Seq<u8>, from: u32, to: u32, pad: bool) -> Result<
    Seq<u8>,
    ConvertError,
> {
    if !valid_width(from) || !valid_width(to) {
        Err(ConvertError::EncodingPrecondition)
    } else {
        let st = absorb(data, from, to);
        if st.1 > 0 {
            let last = tail_symbol(st.0, st.1, to);
            if pad {
                Ok(st.2.push(last))
            } else if last != 0 {
                Err(ConvertError::NonZeroPadding)
            } else {
                Ok(st.2)
            }
        } else {
            Ok(st.2)
        }
    }
}

pub open spec fn symbols_below(s: Seq<u8>, to: u32) -> bool {
    forall|i: int| 0 <= i < s.len() ==> (#[trigger] s[i] as u32) < (1u32 << to)
}

proof fn lemma_masked_below(x: u32, to: u32)
    requires
        1 <= to <= 8,
    ensures
        ((x & low_mask(to)) as u8) as u32 == x & low_mask(to),
        (x & low_mask(to)) < (1u32 << to),
{
    assert(((x & (((1u32 << to) - 1) as u32)) as u8) as u32 == x & (((1u32 << to) - 1) as u32)
        && (x & (((1u32 << to) - 1) as u32)) < (1u32 << to)) by (bit_vector)
        requires
            1 <= to <= 8,
    ;
}

proof fn lemma_emit(acc: u32, bits: u32, to: u32, out: Seq<u8>)
    requires
        valid_width(to),
        symbols_below(out, to),
    ensures
        emit(acc, bits, to, out).0 < to,
        emit(acc, bits, to, out).0 <= bits,
        symbols_below(emit(acc, bits, to, out).1, to),
    decreases bits,
{
    if bits >= to {
        let rest = (bits - to) as u32;
        let sym = ((acc >> rest) & low_mask(to)) as u8;
        lemma_masked_below(acc >> rest, to);
        let out2 = out.push(sym);
        assert(symbols_below(out2, to)) by {
            assert forall|i: int| 0 <= i < out2.len() implies (#[trigger] out2[i] as u32) < (1u32
                << to) by {
                if i < out.len() {
                    assert(out2[i] == out[i]);
                }
            }
        }
        lemma_emit(acc, rest, to, out2);
    }
}

proof fn lemma_absorb(data: Seq<u8>, from: u32, to: u32)
    requires
        valid_width(from),
        valid_width(to),
    ensures
        absorb(data, from, to).1 < to,
        symbols_below(absorb(data, from, to).2, to),
    decreases data.len(),
{
    if data.len() > 0 {
        lemma_absorb(data.drop_last(), from, to);
        let prev = absorb(data.drop_last(), from, to);
        let acc = (prev.0 << from) | (data.last() as u32);
        lemma_emit(acc, (prev.1 + from) as u32, to, prev.2);
    }
}

/// Regroups `data`, read as `frombits`-bit values, into `tobits`-bit symbols,
/// most significant bits first. With `pad`, leftover bits make one last
/// symbol filled up with zero bits; without it, leftover bits must be zero
/// and are dropped.
pub fn convertbits(data: &[u8], frombits: u32, tobits: u32, pad: bool) -> (r: Result<
    Vec<u8>,
    ConvertError,
>)
    ensures
        r matches Ok(v) ==> convert_spec(data@, frombits, tobits, pad) == Ok::<
            Seq<u8>,
            ConvertError,
        >(v@) && symbols_below(v@, tobits),
        r matches Err(e) ==> convert_spec(data@, frombits, tobits, pad) == Err::<
            Seq<u8>,
            ConvertError,
        >(e),
{
    if frombits < 1 || frombits > 8 || tobits < 1 || tobits > 8 {
        return Err(ConvertError::EncodingPrecondition);
    }
    let mut acc: u32 = 0;
    let mut bits: u32 = 0;
    proof {
        assert(1u32 << tobits >= 1) by (bit_vector)
            requires
                1 <= tobits <= 8,
        ;
    }
    let maxv: u32 = (1u32 << tobits) - 1;
    let mut ret: Vec<u8> = Vec::new();
    let mut i: usize = 0;
    while i < data.len()
        invariant
            valid_width(frombits),
            valid_width(tobits),
            maxv == low_mask(tobits),
            i <= data.len(),
            absorb(data@.take(i as int), frombits, tobits) == (acc, bits, ret@),
            bits < tobits,
        decreases data.len() - i,
    {
        proof {
            lemma_absorb(data@.take(i as int), frombits, tobits);
            assert(data@.take(i as int + 1).drop_last() == data@.take(i as int));
        }
        let value = data[i];
        acc = (acc << frombits) | (value as u32);
        bits = bits + frombits;
        let ghost target = emit(acc, bits, tobits, ret@);
        while bits >= tobits
            invariant
                valid_width(tobits),
                maxv == low_mask(tobits),
                emit(acc, bits, tobits, ret@) == target,
                bits <= 16,
            decreases bits,
        {
            bits = bits - tobits;
            ret.push((#[verifier::truncate] (((acc >> bits) & maxv) as u8)));
        }
        i = i + 1;
        proof {
            lemma_absorb(data@.take(i as int), frombits, tobits);
        }
    }
    proof {
        assert(data@.take(data@.len() as int) == data@);
        lemma_absorb(data@, frombits, tobits);
    }
    if bits > 0 {
        let last = (#[verifier::truncate] (((acc << (tobits - bits)) & maxv) as u8));
        if pad {
            ret.push(last);
            proof {
                lemma_masked_below(acc << ((tobits - bits) as u32), tobits);
                assert(symbols_below(ret@, tobits)) by {
                    assert forall|k: int| 0 <= k < ret@.len() implies (#[trigger] ret@[k] as u32)
                        < (1u32 << tobits) by {
                        if k < ret@.len() - 1 {
                            assert(ret@[k] == ret@.drop_last()[k]);
                        }
                    }
                }
            }
        } else if last != 0 {
            return Err(ConvertError::NonZeroPadding);
        }
    }
    Ok(ret)
}

/// The value of the low `bits` bits of `acc`, not yet emitted.
pub open spec fn pending(acc: u32, bits: u32) -> nat {
    (acc & low_mask(bits)) as nat
}

/// The number that `s` spells as base-`2^w` digits, most significant first.
pub open spec fn seq_value(s: Seq<u8>, w: nat) -> nat
    decreases s.len(),
{
    if s.len() == 0 {
        0
    } else {
        seq_value(s.drop_last(), w) * pow2(w) + s.last() as nat
    }
}

proof fn lemma_pow_link(k: u32)
    requires
        k <= 16,
    ensures
        (1u32 << k) as nat == pow2(k as nat),
        1 <= pow2(k as nat) <= 65536,
{
    lemma_u32_pow2_no_overflow(k as nat);
    lemma_u32_shl_is_mul(1u32, k);
    assert(1 <= (1u32 << k) <= 65536) by (bit_vector)
        requires
            k <= 16,
    ;
}

proof fn lemma_pending_below(acc: u32, bits: u32)
    requires
        bits <= 16,
    ensures
        pending(acc, bits) < pow2(bits as nat),
{
    assert((acc & (((1u32 << bits) - 1) as u32)) < (1u32 << bits)) by (bit_vector)
        requires
            bits <= 16,
    ;
    lemma_pow_link(bits);
}

proof fn lemma_absorb_pending(acc: u32, bits: u32, from: u32, v: u32)
    requires
        bits < 8,
        1 <= from <= 8,
        v < (1u32 << from),
    ensures
        pending((acc << from) | v, (bits + from) as u32) == pending(acc, bits) * pow2(from as nat)
            + v,
{
    let nb = (bits + from) as u32;
    assert((((acc << from) | v) & (((1u32 << nb) - 1) as u32)) == (acc & (((1u32 << bits) - 1)
        as u32)) * (1u32 << from) + v) by (bit_vector)
        requires
            bits < 8,
            1 <= from <= 8,
            nb == bits + from,
            v < (1u32 << from),
    ;
    lemma_pow_link(from);
}

proof fn lemma_emit_pending(acc: u32, bits: u32, to: u32)
    requires
        1 <= to <= 8,
        to <= bits <= 16,
    ensures
        pending(acc, bits) == (((acc >> ((bits - to) as u32)) & low_mask(to)) as u8) as nat * pow2(
            (bits - to) as nat,
        ) + pending(acc, (bits - to) as u32),
{
    let r = (bits - to) as u32;
    assert((acc & (((1u32 << bits) - 1) as u32)) == ((acc >> r) & (((1u32 << to) - 1) as u32)) * (
    1u32 << r) + (acc & (((1u32 << r) - 1) as u32))) by (bit_vector)
        requires
            1 <= to <= 8,
            to <= bits <= 16,
            r == bits - to,
    ;
    lemma_masked_below(acc >> r, to);
    lemma_pow_link(r);
}

proof fn lemma_tail_pending(acc: u32, bits: u32, to: u32)
    requires
        1 <= to <= 8,
        bits < to,
    ensures
        tail_symbol(acc, bits, to) as nat == pending(acc, bits) * pow2((to - bits) as nat),
{
    let r = (to - bits) as u32;
    assert((acc << r) & (((1u32 << to) - 1) as u32) == (acc & (((1u32 << bits) - 1) as u32)) * (1u32
        << r)) by (bit_vector)
        requires
            1 <= to <= 8,
            bits < to,
            r == to - bits,
    ;
    lemma_masked_below(acc << r, to);
    lemma_pow_link(r);
}

proof fn lemma_emit_value(acc: u32, bits: u32, to: u32, out: Seq<u8>, total: nat)
    requires
        valid_width(to),
        bits <= 16,
        total == seq_value(out, to as nat) * pow2(bits as nat) + pending(acc, bits),
    ensures
        total == seq_value(emit(acc, bits, to, out).1, to as nat) * pow2(
            emit(acc, bits, to, out).0 as nat,
        ) + pending(acc, emit(acc, bits, to, out).0),
        emit(acc, bits, to, out).1.len() * to + emit(acc, bits, to, out).0 == out.len() * to + bits,
    decreases bits,
{
    if bits >= to {
        let r = (bits - to) as u32;
        let sym = ((acc >> r) & low_mask(to)) as u8;
        let out2 = out.push(sym);
        lemma_emit_pending(acc, bits, to);
        assert(out2.drop_last() == out);
        lemma_pow2_adds(to as nat, r as nat);
        let sv = seq_value(out, to as nat);
        let pt = pow2(to as nat);
        let pr = pow2(r as nat);
        assert(sv * (pt * pr) + sym as nat * pr == (sv * pt + sym as nat) * pr) by (nonlinear_arith);
        assert((out.len() + 1) * to + r == out.len() * to + bits) by (nonlinear_arith)
            requires
                r == bits - to,
        ;
        lemma_emit_value(acc, r, to, out2, total);
    }
}

proof fn lemma_absorb_value(data: Seq<u8>, from: u32, to: u32)
    requires
        valid_width(from),
        valid_width(to),
        symbols_below(data, from),
    ensures
        seq_value(data, from as nat) == seq_value(absorb(data, from, to).2, to as nat) * pow2(
            absorb(data, from, to).1 as nat,
        ) + pending(absorb(data, from, to).0, absorb(data, from, to).1),
        absorb(data, from, to).2.len() * to + absorb(data, from, to).1 == data.len() * from,
    decreases data.len(),
{
    if data.len() == 0 {
        assert(pending(0, 0) == 0) by {
            assert((0u32 & (((1u32 << 0u32) - 1) as u32)) == 0) by (bit_vector);
        }
        assert(absorb(data, from, to) == (0u32, 0u32, Seq::<u8>::empty()));
        assert(seq_value(Seq::<u8>::empty(), to as nat) == 0);
        assert(seq_value(data, from as nat) == 0);
        let st = absorb(data, from, to);
        let x = seq_value(st.2, to as nat);
        let y = pow2(st.1 as nat);
        assert(x * y == 0) by (nonlinear_arith)
            requires
                x == 0,
        ;
        let l = st.2.len();
        let dl = data.len();
        assert(l * to == 0 && dl * from == 0) by (nonlinear_arith)
            requires
                l == 0,
                dl == 0,
        ;
    } else {
        let d = data.drop_last();
        assert(symbols_below(d, from)) by {
            assert forall|i: int| 0 <= i < d.len() implies (#[trigger] d[i] as u32) < (1u32 << from) by {
                assert(d[i] == data[i]);
            }
        }
        lemma_absorb_value(d, from, to);
        lemma_absorb(d, from, to);
        let prev = absorb(d, from, to);
        let v = data.last();
        assert((v as u32) < (1u32 << from));
        let acc = (prev.0 << from) | (v as u32);
        let bits = (prev.1 + from) as u32;
        lemma_absorb_pending(prev.0, prev.1, from, v as u32);
        lemma_pow2_adds(prev.1 as nat, from as nat);
        let sv = seq_value(prev.2, to as nat);
        let pb = pow2(prev.1 as nat);
        let pf = pow2(from as nat);
        let pe = pending(prev.0, prev.1);
        assert((sv * pb + pe) * pf + v as nat == sv * (pb * pf) + (pe * pf + v as nat))
            by (nonlinear_arith);
        assert(seq_value(data, from as nat) == seq_value(d, from as nat) * pf + v as nat);
        assert(pow2(bits as nat) == pb * pf);
        assert(seq_value(data, from as nat) == sv * pow2(bits as nat) + pending(acc, bits));
        lemma_emit_value(acc, bits, to, prev.2, seq_value(data, from as nat));
        assert(data.len() * from == d.len() * from + from) by (nonlinear_arith)
            requires
                data.len() == d.len() + 1,
        ;
    }
}

proof fn lemma_value_injective(s: Seq<u8>, t: Seq<u8>)
    requires
        s.len() == t.len(),
        seq_value(s, 8) == seq_value(t, 8),
    ensures
        s == t,
    decreases s.len(),
{
    if s.len() > 0 {
        vstd::arithmetic::power2::lemma2_to64();
        let a = seq_value(s.drop_last(), 8);
        let c = seq_value(t.drop_last(), 8);
        let x = s.last() as int;
        let y = t.last() as int;
        assert(a == c && x == y) by (nonlinear_arith)
            requires
                a * 256 + x == c * 256 + y,
                0 <= x < 256,
                0 <= y < 256,
                a >= 0,
                c >= 0,
        ;
        lemma_value_injective(s.drop_last(), t.drop_last());
        assert(s == s.drop_last().push(s.last()));
        assert(t == t.drop_last().push(t.last()));
    } else {
        assert(s =~= t);
    }
}

/// Regrouping bytes into five-bit symbols with padding always succeeds, and
/// regrouping those symbols back into bytes without padding gives the bytes
/// back exactly: the padding bits are zero and dropped.
pub proof fn lemma_convert_round_trip(b: Seq<u8>)
    ensures
        convert_spec(b, 8, 5, true) is Ok,
        convert_spec(convert_spec(b, 8, 5, true)->Ok_0, 5, 8, false) == Ok::<Seq<u8>, ConvertError>(
            b,
        ),
{
    vstd::arithmetic::power2::lemma2_to64();
    assert((1u32 << 8u32) == 256) by (bit_vector);
    assert(symbols_below(b, 8)) by {
        assert forall|i: int| 0 <= i < b.len() implies (#[trigger] b[i] as u32) < (1u32 << 8u32) by {}
    }
    let st = absorb(b, 8, 5);
    lemma_absorb_value(b, 8, 5);
    lemma_absorb(b, 8, 5);
    let v = seq_value(b, 8);
    let f = convert_spec(b, 8, 5, true)->Ok_0;
    let p: nat = if st.1 > 0 { (5 - st.1) as nat } else { 0 };
    if st.1 > 0 {
        lemma_tail_pending(st.0, st.1, 5);
        let tail = tail_symbol(st.0, st.1, 5);
        lemma_masked_below(st.0 << ((5 - st.1) as u32), 5);
        assert(f == st.2.push(tail));
        assert(f.drop_last() == st.2);
        lemma_pow2_adds(st.1 as nat, p);
        let so = seq_value(st.2, 5);
        let pb = pow2(st.1 as nat);
        let pp = pow2(p);
        let pe = pending(st.0, st.1);
        assert((so * pb + pe) * pp == so * (pb * pp) + pe * pp) by (nonlinear_arith);
        assert(seq_value(f, 5) == v * pp);
        assert(symbols_below(f, 5)) by {
            assert forall|i: int| 0 <= i < f.len() implies (#[trigger] f[i] as u32) < (1u32 << 5u32) by {
                if i < st.2.len() {
                    assert(f[i] == st.2[i]);
                }
            }
        }
        assert(f.len() * 5 == b.len() * 8 + p);
    } else {
        assert(pending(st.0, 0) == 0) by {
            let a = st.0;
            assert((a & (((1u32 << 0u32) - 1) as u32)) == 0) by (bit_vector);
        }
        assert(f == st.2);
        assert(v == seq_value(st.2, 5) * 1 + 0);
        assert(seq_value(f, 5) == v * pow2(p));
        assert(f.len() * 5 == b.len() * 8 + p);
    }
    let st2 = absorb(f, 5, 8);
    lemma_absorb_value(f, 5, 8);
    lemma_absorb(f, 5, 8);
    let g = st2.2;
    let q = st2.1;
    assert(g.len() * 8 + q == b.len() * 8 + p);
    assert(q == p && g.len() == b.len());
    lemma_pending_below(st2.0, q);
    let pe2 = pending(st2.0, q);
    let sg = seq_value(g, 8);
    let pp = pow2(p);
    assert(sg == v && pe2 == 0) by (nonlinear_arith)
        requires
            v * pp == sg * pp + pe2,
            pe2 < pp,
            pp >= 1,
            v >= 0,
            sg >= 0,
    ;
    if q > 0 {
        lemma_tail_pending(st2.0, q, 8);
        assert(tail_symbol(st2.0, q, 8) == 0);
    }
    lemma_value_injective(g, b);
}

/// Regrouping `n` bytes into five-bit symbols with padding gives
/// `ceil(8n / 5)` symbols.
pub proof fn lemma_regroup_length(b: Seq<u8>)
    ensures
        convert_spec(b, 8, 5, true) is Ok,
        convert_spec(b, 8, 5, true)->Ok_0.len() == (8 * b.len() + 4) / 5,
{
    assert((1u32 << 8u32) == 256) by (bit_vector);
    assert(symbols_below(b, 8)) by {
        assert forall|i: int| 0 <= i < b.len() implies (#[trigger] b[i] as u32) < (1u32 << 8u32) by {}
    }
    lemma_absorb_value(b, 8, 5);
    lemma_absorb(b, 8, 5);
}

} // verus!
