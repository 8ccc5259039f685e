//! Packed bit sets, held in `bit_vec::BitVec`, and their byte layout on the wire:
//! most significant bit of each byte first.
use bit_vec::BitVec;
use vstd::prelude::*;

verus! {

#[verifier::external_type_specification]
#[verifier::external_body]
#[verifier::reject_recursive_types(B)]
pub struct ExBitVec<B>(BitVec<B>);

/// The bits that a `BitVec` holds, in order.
pub uninterp spec fn bits_of(v: BitVec) -> Seq<bool>;

/// Bit `j` (0 is the most significant) of byte `b`.
pub open spec fn bit_at(b: u8, j: int) -> bool {
    (b >> ((7 - j) as u8)) & 1u8 == 1u8
}

/// The bits of a byte string, eight per byte, most significant first.
pub open spec fn unpack_bits(bytes: Seq<u8>) -> Seq<bool> {
    Seq::new(8 * bytes.len(), |k: int| bit_at(bytes[k / 8], k % 8))
}

/// Bit `k` of `bits`, where positions past the end read as zero.
pub open spec fn bit_or_zero(bits: Seq<bool>, k: int) -> bool {
    0 <= k < bits.len() && bits[k]
}

/// The byte whose bits, most significant first, are `b0` to `b7`.
pub open spec fn byte_of_bits(
    b0: bool,
    b1: bool,
    b2: bool,
    b3: bool,
    b4: bool,
    b5: bool,
    b6: bool,
    b7: bool,
) -> u8 {
    (if b0 { 0x80u8 } else { 0u8 }) | (if b1 { 0x40u8 } else { 0u8 }) | (if b2 { 0x20u8 } else { 0u8 })
        | (if b3 { 0x10u8 } else { 0u8 }) | (if b4 { 0x08u8 } else { 0u8 }) | (if b5 { 0x04u8 } else { 0u8 })
        | (if b6 { 0x02u8 } else { 0u8 }) | (if b7 { 0x01u8 } else { 0u8 })
}

/// Byte `i` of the packed form of `bits`.
pub open spec fn packed_byte(bits: Seq<bool>, i: int) -> u8 {
    byte_of_bits(
        bit_or_zero(bits, 8 * i),
        bit_or_zero(bits, 8 * i + 1),
        bit_or_zero(bits, 8 * i + 2),
        bit_or_zero(bits, 8 * i + 3),
        bit_or_zero(bits, 8 * i + 4),
        bit_or_zero(bits, 8 * i + 5),
        bit_or_zero(bits, 8 * i + 6),
        bit_or_zero(bits, 8 * i + 7),
    )
}

/// Number of bytes that hold `n` bits.
pub open spec fn bytes_for_bits(n: nat) -> nat {
    (n + 7) / 8
}

/// The packed form of a bit sequence: eight bits per byte, most significant first,
/// the last byte padded with zero bits.
pub open spec fn pack_bits(bits: Seq<bool>) -> Seq<u8> {
    Seq::new(bytes_for_bits(bits.len()), |i: int| packed_byte(bits, i))
}

/// Reading bit `j` of a byte built from eight bits gives back bit `j`.
pub proof fn lemma_bit_of_packed_byte(
    b0: bool,
    b1: bool,
    b2: bool,
    b3: bool,
    b4: bool,
    b5: bool,
    b6: bool,
    b7: bool,
)
    by (bit_vector)
    ensures
        bit_at(byte_of_bits(b0, b1, b2, b3, b4, b5, b6, b7), 0) == b0,
        bit_at(byte_of_bits(b0, b1, b2, b3, b4, b5, b6, b7), 1) == b1,
        bit_at(byte_of_bits(b0, b1, b2, b3, b4, b5, b6, b7), 2) == b2,
        bit_at(byte_of_bits(b0, b1, b2, b3, b4, b5, b6, b7), 3) == b3,
        bit_at(byte_of_bits(b0, b1, b2, b3, b4, b5, b6, b7), 4) == b4,
        bit_at(byte_of_bits(b0, b1, b2, b3, b4, b5, b6, b7), 5) == b5,
        bit_at(byte_of_bits(b0, b1, b2, b3, b4, b5, b6, b7), 6) == b6,
        bit_at(byte_of_bits(b0, b1, b2, b3, b4, b5, b6, b7), 7) == b7,
{
}

/// Relies on `BitVec::from_bytes`: each byte becomes eight bits, most significant first.
/// It panics when the bit count overflows `usize`.
#[verifier::external_body]
pub(crate) fn bitvec_from_bytes(bytes: &[u8]) -> (r: BitVec)
    requires
        8 * bytes@.len() <= usize::MAX,
    ensures
        bits_of(r) == unpack_bits(bytes@),
{
    BitVec::from_bytes(bytes)
}

/// Unpacking the packed form of `bits` gives `bits` back, followed by the zero
/// bits that pad the last byte.
pub proof fn lemma_unpack_pack(bits: Seq<bool>)
    ensures
        unpack_bits(pack_bits(bits)).len() == 8 * bytes_for_bits(bits.len()),
        forall|k: int|
            0 <= k < unpack_bits(pack_bits(bits)).len() ==> #[trigger] unpack_bits(
                pack_bits(bits),
            )[k] == bit_or_zero(bits, k),
        bits.len() % 8 == 0 ==> unpack_bits(pack_bits(bits)) == bits,
{
    let packed = pack_bits(bits);
    let unpacked = unpack_bits(packed);
    assert forall|k: int| 0 <= k < unpacked.len() implies #[trigger] unpacked[k] == bit_or_zero(
        bits,
        k,
    ) by {
        let i = k / 8;
        let j = k % 8;
        assert(k == 8 * i + j);
        lemma_bit_of_packed_byte(
            bit_or_zero(bits, 8 * i),
            bit_or_zero(bits, 8 * i + 1),
            bit_or_zero(bits, 8 * i + 2),
            bit_or_zero(bits, 8 * i + 3),
            bit_or_zero(bits, 8 * i + 4),
            bit_or_zero(bits, 8 * i + 5),
            bit_or_zero(bits, 8 * i + 6),
            bit_or_zero(bits, 8 * i + 7),
        );
        assert(packed[i] == packed_byte(bits, i));
    }
    if bits.len() % 8 == 0 {
        assert(unpacked =~= bits);
    }
}

/// Eight bits read from a byte, packed again, give the byte back.
pub proof fn lemma_byte_of_its_bits(b: u8)
    by (bit_vector)
    ensures
        byte_of_bits(
            bit_at(b, 0),
            bit_at(b, 1),
            bit_at(b, 2),
            bit_at(b, 3),
            bit_at(b, 4),
            bit_at(b, 5),
            bit_at(b, 6),
            bit_at(b, 7),
        ) == b,
{
}

/// Packing the bits of a byte string gives the byte string back: together with
/// `lemma_unpack_pack`, the wire form of a bit field is bit-exact both ways.
pub proof fn lemma_pack_unpack(bytes: Seq<u8>)
    ensures
        pack_bits(unpack_bits(bytes)) == bytes,
{
    let bits = unpack_bits(bytes);
    let packed = pack_bits(bits);
    assert forall|i: int| 0 <= i < bytes.len() implies #[trigger] packed[i] == bytes[i] by {
        assert forall|j: int| 0 <= j < 8 implies bit_or_zero(bits, 8 * i + j) == bit_at(
            bytes[i],
            j,
        ) by {
            assert((8 * i + j) / 8 == i);
            assert((8 * i + j) % 8 == j);
        }
        assert(bit_or_zero(bits, 8 * i) == bit_at(bytes[i], 0));
        assert(bit_or_zero(bits, 8 * i + 1) == bit_at(bytes[i], 1));
        assert(bit_or_zero(bits, 8 * i + 2) == bit_at(bytes[i], 2));
        assert(bit_or_zero(bits, 8 * i + 3) == bit_at(bytes[i], 3));
        assert(bit_or_zero(bits, 8 * i + 4) == bit_at(bytes[i], 4));
        assert(bit_or_zero(bits, 8 * i + 5) == bit_at(bytes[i], 5));
        assert(bit_or_zero(bits, 8 * i + 6) == bit_at(bytes[i], 6));
        assert(bit_or_zero(bits, 8 * i + 7) == bit_at(bytes[i], 7));
        lemma_byte_of_its_bits(bytes[i]);
    }
    assert(packed =~= bytes);
}

/// Relies on `BitVec::to_bytes`: eight bits per byte, most significant first, the
/// last byte padded with zero bits.
#[verifier::external_body]
pub(crate) fn bitvec_to_bytes(v: &BitVec) -> (r: Vec<u8>)
    ensures
        r@ == pack_bits(bits_of(*v)),
{
    v.to_bytes()
}

/// Relies on `BitVec::len`: the number of bits held.
#[verifier::external_body]
pub(crate) fn bitvec_len(v: &BitVec) -> (r: usize)
    ensures
        r == bits_of(*v).len(),
{
    v.len()
}

/// Relies on `BitVec::get`: the bit at `i`, or `None` past the end.
#[verifier::external_body]
pub(crate) fn bitvec_get(v: &BitVec, i: usize) -> (r: Option<bool>)
    ensures
        i < bits_of(*v).len() ==> r == Some(bits_of(*v)[i as int]),
        i >= bits_of(*v).len() ==> r is None,
{
    v.get(i)
}

/// Relies on `BitVec::set`: overwrites the bit at `i`; it panics past the end.
#[verifier::external_body]
pub(crate) fn bitvec_set(v: &mut BitVec, i: usize, x: bool)
    requires
        i < bits_of(*old(v)).len(),
    ensures
        bits_of(*final(v)) == bits_of(*old(v)).update(i as int, x),
{
    v.set(i, x)
}

/// Relies on `BitVec::from_elem`: `n` copies of `bit`.
#[verifier::external_body]
pub(crate) fn bitvec_from_elem(n: usize, bit: bool) -> (r: BitVec)
    ensures
        bits_of(r) == Seq::new(n as nat, |k: int| bit),
{
    BitVec::from_elem(n, bit)
}

/// Relies on `BitVec`'s `Clone`: the copy holds the same bits.
#[verifier::external_body]
pub(crate) fn bitvec_clone(v: &BitVec) -> (r: BitVec)
    ensures
        bits_of(r) == bits_of(*v),
{
    v.clone()
}

} // verus!
