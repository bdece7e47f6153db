//! Words, bit sequences and octet packing, least significant bit first.

use vstd::arithmetic::power2::{
    lemma2_to64, lemma2_to64_rest, lemma_pow2_strictly_increases, lemma_pow2_unfold, pow2,
};
use vstd::prelude::*;

verus! {

/// Bit `i` of `x`, counted from the least significant end.
pub open spec fn bit_of(x: u64, i: int) -> bool {
    (x >> (i as u64)) & 1 == 1
}

/// The low `n` bits of `x`, least significant first.
pub open spec fn bits_of(x: u64, n: nat) -> Seq<bool> {
    Seq::new(n, |i: int| bit_of(x, i))
}

/// The number whose binary digits are `bits`, least significant first.
pub open spec fn value_of(bits: Seq<bool>) -> nat
    decreases bits.len(),
{
    if bits.len() == 0 {
        0
    } else {
        (if bits[0] { 1nat } else { 0nat }) + 2 * value_of(bits.drop_first())
    }
}

/// A register of `n` cleared bits.
pub open spec fn cleared(n: nat) -> Seq<bool> {
    Seq::new(n, |i: int| false)
}

/// One clock of a shift register: the low bit leaves, `tdi` enters at the top.
pub open spec fn shifted(register: Seq<bool>, tdi: bool) -> Seq<bool> {
    register.drop_first().push(tdi)
}

/// The eight bits that go into octet `j` of `bits`, padded with zeros.
pub open spec fn octet(bits: Seq<bool>, j: int) -> Seq<bool> {
    Seq::new(8, |k: int| 8 * j + k < bits.len() && bits[8 * j + k])
}

/// `bits` as octets, bit `8 * j + k` with weight two to the `k` in octet `j`.
pub open spec fn packed(bits: Seq<bool>) -> Seq<u8> {
    Seq::new(((bits.len() + 7) / 8) as nat, |j: int| value_of(octet(bits, j)) as u8)
}

/// The bits of a sequence of octets, each octet least significant bit first.
pub open spec fn unpacked(octets: Seq<u8>) -> Seq<bool> {
    Seq::new(octets.len() * 8, |i: int| bit_of(octets[i / 8] as u64, i % 8))
}

/// Dropping the low bit halves the word.
proof fn lemma_bits_of_halve(x: u64, n: nat)
    requires
        0 < n <= 64,
    ensures
        bits_of(x, n)[0] == (x % 2 == 1),
        bits_of(x, n).drop_first() =~= bits_of(x / 2, (n - 1) as nat),
{
    assert((x >> 0) & 1 == x % 2) by (bit_vector);
    assert forall|i: int| 0 <= i < n - 1 implies bit_of(x, i + 1) == #[trigger] bit_of(
        x / 2,
        i,
    ) by {
        let k = i as u64;
        assert((x >> ((k + 1) as u64)) & 1 == ((x / 2) >> k) & 1) by (bit_vector)
            requires
                k < 63,
        ;
    }
}

/// Reading the low bits of a word that fits in them gives the word back.
pub proof fn lemma_value_of_bits_of(x: u64, n: nat)
    requires
        n <= 64,
        n < 64 ==> x < pow2(n),
    ensures
        value_of(bits_of(x, n)) == x,
    decreases n,
{
    lemma2_to64();
    lemma2_to64_rest();
    if n > 0 {
        lemma_bits_of_halve(x, n);
        if n < 64 {
            lemma_pow2_unfold(n);
        }
        lemma_value_of_bits_of(x / 2, (n - 1) as nat);
    }
}

/// A sequence of bits is recovered from the number it spells.
pub proof fn lemma_bits_of_value_of(bits: Seq<bool>)
    requires
        bits.len() <= 63,
    ensures
        value_of(bits) < pow2(bits.len()),
        value_of(bits) <= u64::MAX,
        bits_of(value_of(bits) as u64, bits.len()) =~= bits,
    decreases bits.len(),
{
    lemma2_to64();
    lemma2_to64_rest();
    if bits.len() == 0 {
    } else {
        let rest = bits.drop_first();
        lemma_bits_of_value_of(rest);
        lemma_pow2_unfold(bits.len());
        lemma_pow2_strictly_increases(bits.len(), 64);
        let x = value_of(bits) as u64;
        lemma_bits_of_halve(x, bits.len());
        assert(x / 2 == value_of(rest));
        assert forall|i: int| 0 <= i < bits.len() implies bits_of(x, bits.len())[i]
            == bits[i] by {
            if i > 0 {
                assert(bits_of(x, bits.len()).drop_first()[i - 1] == rest[i - 1]);
            }
        }
    }
}

/// An octet is the number that its eight bits spell.
proof fn lemma_octet_value(x: u8, bits: Seq<bool>)
    requires
        bits.len() == 8,
        forall|k: int| 0 <= k < 8 ==> bit_of(x as u64, k) == bits[k],
    ensures
        value_of(bits) == x,
{
    lemma2_to64();
    lemma_value_of_bits_of(x as u64, 8);
    assert(bits_of(x as u64, 8) =~= bits);
}

/// Setting one bit of an octet sets that bit and no other.
proof fn lemma_set_bit(x: u8, i: usize)
    requires
        i < 8,
    ensures
        forall|k: int|
            0 <= k < 8 ==> #[trigger] bit_of((x | (1u8 << i)) as u64, k) == (k == i || bit_of(
                x as u64,
                k,
            )),
{
    let y = x | (1u8 << i);
    assert forall|k: int| 0 <= k < 8 implies #[trigger] bit_of(y as u64, k) == (k == i || bit_of(
        x as u64,
        k,
    )) by {
        let j = k as u64;
        let i8bit = i as u8;
        assert(y == x | (1u8 << i8bit));
        assert(((y as u64 >> j) & 1 == 1) == (j == i8bit as u64 || (x as u64 >> j) & 1 == 1))
            by (bit_vector)
            requires
                j < 8,
                i8bit < 8,
                y == x | (1u8 << i8bit),
        ;
    }
}

/// Pack a bit vector LSB-first within each byte, matching how the JTAG
/// shift order maps to a host byte stream. A last partial byte is padded
/// with zeros.
pub fn pack_bits_lsb_first(bits: &[bool]) -> (out: Vec<u8>)
    ensures
        out@ == packed(bits@),
{
    let n: usize = bits.len();
    let octets: usize = n / 8 + if n % 8 == 0 { 0 } else { 1 };
    let mut out: Vec<u8> = vec![0u8; octets];
    assert forall|j: int, k: int| 0 <= j < octets && 0 <= k < 8 implies !(#[trigger] bit_of(
        out@[j] as u64,
        k,
    )) by {
        let b = k as u64;
        assert((0u64 >> b) & 1 == 0) by (bit_vector);
    }
    for i in 0..n
        invariant
            n == bits@.len(),
            octets == (n + 7) / 8,
            out@.len() == octets,
            forall|j: int, k: int|
                0 <= j < octets && 0 <= k < 8 ==> #[trigger] bit_of(out@[j] as u64, k) == (8 * j + k
                    < i && bits@[8 * j + k]),
    {
        if bits[i] {
            let at: usize = i / 8;
            let old_octet: u8 = out[at];
            proof {
                lemma_set_bit(old_octet, i % 8);
            }
            out[at] = old_octet | (1u8 << (i % 8));
        }
    }
    assert forall|j: int| 0 <= j < octets implies out@[j] == #[trigger] packed(bits@)[j] by {
        lemma_octet_value(out@[j], octet(bits@, j));
    }
    assert(out@ =~= packed(bits@));
    out
}

/// The bits of a word are its binary digits: bit `i` tells whether the word,
/// divided by two to the `i`, is odd.
pub proof fn law_bits_are_digits(x: u64, n: nat, i: int)
    requires
        n <= 64,
        0 <= i < n,
    ensures
        bits_of(x, n).len() == n,
        bits_of(x, n)[i] == (x as nat / pow2(i as nat) % 2 == 1),
        bit_of(x, i) == (x as nat / pow2(i as nat) % 2 == 1),
{
    let k = i as u64;
    vstd::bits::lemma_u64_shr_is_div(x, k);
    let y = x >> k;
    assert(y & 1 == y % 2) by (bit_vector);
}

/// A further bit at the high end of a number adds its weight.
pub proof fn law_bit_adds_weight(bits: Seq<bool>, high: bool)
    ensures
        value_of(Seq::empty()) == 0,
        value_of(bits.push(high)) == value_of(bits) + if high { pow2(bits.len()) } else { 0 },
    decreases bits.len(),
{
    lemma2_to64();
    let more = bits.push(high);
    if bits.len() == 0 {
        assert(value_of(more.drop_first()) == 0);
        assert(more[0] == high);
    } else {
        assert(more.drop_first() =~= bits.drop_first().push(high));
        law_bit_adds_weight(bits.drop_first(), high);
        lemma_pow2_unfold(bits.len());
        assert(more[0] == bits[0]);
        assert(value_of(more) == (if bits[0] { 1nat } else { 0 }) + 2 * value_of(
            bits.drop_first().push(high),
        ));
    }
}

/// Each octet weighs the eight bits that it stands for, the first of them one
/// and the last 128; bits past the end weigh nothing. There are as many octets
/// as the bits need.
pub proof fn law_octet_weights(bits: Seq<bool>, j: int)
    requires
        0 <= j < packed(bits).len(),
    ensures
        8 * packed(bits).len() - 8 < bits.len() <= 8 * packed(bits).len(),
        ({
            let set = |k: int| 8 * j + k < bits.len() && bits[8 * j + k];
            packed(bits)[j] == (if set(0) { 1int } else { 0 }) + (if set(1) { 2int } else { 0 }) + (
            if set(2) { 4int } else { 0 }) + (if set(3) { 8int } else { 0 }) + (if set(4) {
                16int
            } else {
                0
            }) + (if set(5) { 32int } else { 0 }) + (if set(6) { 64int } else { 0 }) + (if set(7) {
                128int
            } else {
                0
            })
        }),
{
    let o = octet(bits, j);
    let o1 = o.drop_first();
    let o2 = o1.drop_first();
    let o3 = o2.drop_first();
    let o4 = o3.drop_first();
    let o5 = o4.drop_first();
    let o6 = o5.drop_first();
    let o7 = o6.drop_first();
    assert(value_of(o7.drop_first()) == 0);
    assert(value_of(o7) == if o[7] { 1nat } else { 0 });
    assert(value_of(o6) == (if o[6] { 1nat } else { 0 }) + 2 * value_of(o7));
    assert(value_of(o5) == (if o[5] { 1nat } else { 0 }) + 2 * value_of(o6));
    assert(value_of(o4) == (if o[4] { 1nat } else { 0 }) + 2 * value_of(o5));
    assert(value_of(o3) == (if o[3] { 1nat } else { 0 }) + 2 * value_of(o4));
    assert(value_of(o2) == (if o[2] { 1nat } else { 0 }) + 2 * value_of(o3));
    assert(value_of(o1) == (if o[1] { 1nat } else { 0 }) + 2 * value_of(o2));
}

/// Packing gives no octet where there is no bit.
pub proof fn law_nothing_packed(bits: Seq<bool>)
    ensures
        packed(bits).len() == 0 <==> bits.len() == 0,
{
}

/// What the laws say of packing holds of the function that packs, which takes
/// any bits.
pub proof fn law_packing_called(bits: &[bool], out: Vec<u8>)
    requires
        call_ensures(pack_bits_lsb_first, (bits,), out),
    ensures
        call_requires(pack_bits_lsb_first, (bits,)),
        out@ == packed(bits@),
{
}

/// Packing loses nothing: the bits come back out of the octets in order,
/// followed by fewer than eight zeros of padding.
pub proof fn law_unpack_pack(bits: Seq<bool>)
    ensures
        bits.len() <= unpacked(packed(bits)).len() < bits.len() + 8,
        unpacked(packed(bits)).take(bits.len() as int) == bits,
        forall|i: int|
            bits.len() <= i < unpacked(packed(bits)).len() ==> !(#[trigger] unpacked(
                packed(bits),
            )[i]),
{
    let octets = packed(bits);
    assert forall|i: int| 0 <= i < unpacked(octets).len() implies #[trigger] unpacked(octets)[i] == (
    i < bits.len() && bits[i]) by {
        let j = i / 8;
        let group = octet(bits, j);
        lemma2_to64();
        lemma_bits_of_value_of(group);
        assert(octets[j] == value_of(group));
        assert(bits_of(octets[j] as u64, 8)[i % 8] == group[i % 8]);
    }
    assert(unpacked(octets).take(bits.len() as int) =~= bits);
}

/// Two bit vectors of one length that pack to the same octets are equal.
pub proof fn law_pack_injective(a: Seq<bool>, b: Seq<bool>)
    requires
        a.len() == b.len(),
        packed(a) == packed(b),
    ensures
        a == b,
{
    law_unpack_pack(a);
    law_unpack_pack(b);
}

/// A bit vector may be packed piece by piece, where each piece but the last
/// fills whole octets.
pub proof fn law_pack_concat(a: Seq<bool>, b: Seq<bool>)
    requires
        a.len() % 8 == 0,
    ensures
        packed(a + b) == packed(a) + packed(b),
{
    let whole = packed(a + b);
    let parts = packed(a) + packed(b);
    assert(whole.len() == parts.len());
    assert forall|j: int| 0 <= j < whole.len() implies whole[j] == parts[j] by {
        let split = (a.len() / 8) as int;
        if j < split {
            assert(octet(a + b, j) =~= octet(a, j));
        } else {
            assert(octet(a + b, j) =~= octet(b, j - split));
        }
    }
    assert(whole =~= parts);
}

} // verus!
