//! Fields of up to 32 bits, written and read as two fields of at most 16
//! bits each with `encode_bitfield` and `decode_bitfield`.

use crate::bitfield::{
    buffer_bit, decode_bitfield, encode_bitfield, word_bit,
};
use vstd::arithmetic::power2::pow2;
use vstd::prelude::*;

verus! {

/// Bit `i` (0 <= i < 32) of a 32-bit word.
pub open spec fn value_bit(v: u32, i: int) -> bool {
    (v >> (i as u32)) & 1u32 == 1u32
}

/// The mask that keeps the low `bit_length` bits of a 32-bit word.
pub open spec fn wide_mask(bit_length: nat) -> u32 {
    if bit_length >= 32 { 0xFFFF_FFFFu32 } else { ((1u32 << (bit_length as u32)) - 1) as u32 }
}

/// The two's-complement value of a field of `bit_length` bits (1 to 31)
/// whose raw bits are `raw`: when its top bit is set, the bits above the
/// field are filled with ones. A length of 0 or 32 and more keeps the bits.
pub open spec fn sign_extended_wide(raw: u32, bit_length: nat) -> i32 {
    if bit_length == 0 || bit_length >= 32 {
        raw as i32
    } else if value_bit(raw, bit_length - 1) {
        (raw | !wide_mask(bit_length)) as i32
    } else {
        raw as i32
    }
}

/// `after` is `before` with bits `bit_offset .. bit_offset + bit_length`
/// replaced by the low `bit_length` bits of `value`, all other bits unchanged.
pub open spec fn encodes_wide(
    before: Seq<u8>,
    after: Seq<u8>,
    bit_offset: int,
    bit_length: int,
    value: u32,
) -> bool {
    &&& after.len() == before.len()
    &&& forall|p: int|
        bit_offset <= p < bit_offset + bit_length ==> #[trigger] buffer_bit(after, p) == value_bit(
            value,
            p - bit_offset,
        )
    &&& forall|p: int|
        !(bit_offset <= p < bit_offset + bit_length) ==> #[trigger] buffer_bit(after, p)
            == buffer_bit(before, p)
}

/// `w` holds the bits of the field `bit_offset .. bit_offset + bit_length`
/// of `data` (at most 32 bits), the bits above the field zero.
pub open spec fn reads_as(data: Seq<u8>, bit_offset: int, bit_length: int, w: u32) -> bool {
    forall|i: int|
        0 <= i < 32 ==> #[trigger] value_bit(w, i) == (i < bit_length && buffer_bit(
            data,
            bit_offset + i,
        ))
}

/// The word that reading the field gives.
pub open spec fn field_bits(data: Seq<u8>, bit_offset: int, bit_length: int) -> u32 {
    choose|w: u32| reads_as(data, bit_offset, bit_length, w)
}

/// Two 32-bit words with the same bits are equal.
pub proof fn lemma_value_eq_from_bits(a: u32, b: u32)
    requires
        forall|i: int| 0 <= i < 32 ==> value_bit(a, i) == value_bit(b, i),
    ensures
        a == b,
{
    assert(value_bit(a, 0) == value_bit(b, 0));
    assert(value_bit(a, 1) == value_bit(b, 1));
    assert(value_bit(a, 2) == value_bit(b, 2));
    assert(value_bit(a, 3) == value_bit(b, 3));
    assert(value_bit(a, 4) == value_bit(b, 4));
    assert(value_bit(a, 5) == value_bit(b, 5));
    assert(value_bit(a, 6) == value_bit(b, 6));
    assert(value_bit(a, 7) == value_bit(b, 7));
    assert(value_bit(a, 8) == value_bit(b, 8));
    assert(value_bit(a, 9) == value_bit(b, 9));
    assert(value_bit(a, 10) == value_bit(b, 10));
    assert(value_bit(a, 11) == value_bit(b, 11));
    assert(value_bit(a, 12) == value_bit(b, 12));
    assert(value_bit(a, 13) == value_bit(b, 13));
    assert(value_bit(a, 14) == value_bit(b, 14));
    assert(value_bit(a, 15) == value_bit(b, 15));
    assert(value_bit(a, 16) == value_bit(b, 16));
    assert(value_bit(a, 17) == value_bit(b, 17));
    assert(value_bit(a, 18) == value_bit(b, 18));
    assert(value_bit(a, 19) == value_bit(b, 19));
    assert(value_bit(a, 20) == value_bit(b, 20));
    assert(value_bit(a, 21) == value_bit(b, 21));
    assert(value_bit(a, 22) == value_bit(b, 22));
    assert(value_bit(a, 23) == value_bit(b, 23));
    assert(value_bit(a, 24) == value_bit(b, 24));
    assert(value_bit(a, 25) == value_bit(b, 25));
    assert(value_bit(a, 26) == value_bit(b, 26));
    assert(value_bit(a, 27) == value_bit(b, 27));
    assert(value_bit(a, 28) == value_bit(b, 28));
    assert(value_bit(a, 29) == value_bit(b, 29));
    assert(value_bit(a, 30) == value_bit(b, 30));
    assert(value_bit(a, 31) == value_bit(b, 31));
    assert(a == b) by (bit_vector)
        requires
            ((a >> 0u32) & 1u32 == 1u32) == ((b >> 0u32) & 1u32 == 1u32),
            ((a >> 1u32) & 1u32 == 1u32) == ((b >> 1u32) & 1u32 == 1u32),
            ((a >> 2u32) & 1u32 == 1u32) == ((b >> 2u32) & 1u32 == 1u32),
            ((a >> 3u32) & 1u32 == 1u32) == ((b >> 3u32) & 1u32 == 1u32),
            ((a >> 4u32) & 1u32 == 1u32) == ((b >> 4u32) & 1u32 == 1u32),
            ((a >> 5u32) & 1u32 == 1u32) == ((b >> 5u32) & 1u32 == 1u32),
            ((a >> 6u32) & 1u32 == 1u32) == ((b >> 6u32) & 1u32 == 1u32),
            ((a >> 7u32) & 1u32 == 1u32) == ((b >> 7u32) & 1u32 == 1u32),
            ((a >> 8u32) & 1u32 == 1u32) == ((b >> 8u32) & 1u32 == 1u32),
            ((a >> 9u32) & 1u32 == 1u32) == ((b >> 9u32) & 1u32 == 1u32),
            ((a >> 10u32) & 1u32 == 1u32) == ((b >> 10u32) & 1u32 == 1u32),
            ((a >> 11u32) & 1u32 == 1u32) == ((b >> 11u32) & 1u32 == 1u32),
            ((a >> 12u32) & 1u32 == 1u32) == ((b >> 12u32) & 1u32 == 1u32),
            ((a >> 13u32) & 1u32 == 1u32) == ((b >> 13u32) & 1u32 == 1u32),
            ((a >> 14u32) & 1u32 == 1u32) == ((b >> 14u32) & 1u32 == 1u32),
            ((a >> 15u32) & 1u32 == 1u32) == ((b >> 15u32) & 1u32 == 1u32),
            ((a >> 16u32) & 1u32 == 1u32) == ((b >> 16u32) & 1u32 == 1u32),
            ((a >> 17u32) & 1u32 == 1u32) == ((b >> 17u32) & 1u32 == 1u32),
            ((a >> 18u32) & 1u32 == 1u32) == ((b >> 18u32) & 1u32 == 1u32),
            ((a >> 19u32) & 1u32 == 1u32) == ((b >> 19u32) & 1u32 == 1u32),
            ((a >> 20u32) & 1u32 == 1u32) == ((b >> 20u32) & 1u32 == 1u32),
            ((a >> 21u32) & 1u32 == 1u32) == ((b >> 21u32) & 1u32 == 1u32),
            ((a >> 22u32) & 1u32 == 1u32) == ((b >> 22u32) & 1u32 == 1u32),
            ((a >> 23u32) & 1u32 == 1u32) == ((b >> 23u32) & 1u32 == 1u32),
            ((a >> 24u32) & 1u32 == 1u32) == ((b >> 24u32) & 1u32 == 1u32),
            ((a >> 25u32) & 1u32 == 1u32) == ((b >> 25u32) & 1u32 == 1u32),
            ((a >> 26u32) & 1u32 == 1u32) == ((b >> 26u32) & 1u32 == 1u32),
            ((a >> 27u32) & 1u32 == 1u32) == ((b >> 27u32) & 1u32 == 1u32),
            ((a >> 28u32) & 1u32 == 1u32) == ((b >> 28u32) & 1u32 == 1u32),
            ((a >> 29u32) & 1u32 == 1u32) == ((b >> 29u32) & 1u32 == 1u32),
            ((a >> 30u32) & 1u32 == 1u32) == ((b >> 30u32) & 1u32 == 1u32),
            ((a >> 31u32) & 1u32 == 1u32) == ((b >> 31u32) & 1u32 == 1u32),
    ;
}

/// A word that a field reads as is the field's word.
pub proof fn lemma_field_bits_unique(data: Seq<u8>, bit_offset: int, bit_length: int, w: u32)
    requires
        reads_as(data, bit_offset, bit_length, w),
    ensures
        w == field_bits(data, bit_offset, bit_length),
{
    let c = field_bits(data, bit_offset, bit_length);
    assert(reads_as(data, bit_offset, bit_length, c));
    assert forall|i: int| 0 <= i < 32 implies value_bit(w, i) == value_bit(c, i) by {}
    lemma_value_eq_from_bits(w, c);
}

/// Masking with `wide_mask(len)` keeps exactly the bits below `len`.
pub proof fn lemma_wide_mask_bits(value: u32, len: u32, i: u32)
    requires
        len <= 32,
        i < 32,
    ensures
        value_bit(value & wide_mask(len as nat), i as int) == (i < len && value_bit(value, i as int)),
{
    if len >= 32 {
        assert(((value & 0xFFFF_FFFFu32) >> i) & 1u32 == (value >> i) & 1u32) by (bit_vector);
    } else {
        assert((((value & (((1u32 << len) - 1) as u32)) >> i) & 1u32 == 1u32) == (i < len && (
        value >> i) & 1u32 == 1u32)) by (bit_vector)
            requires len < 32u32, i < 32u32;
    }
}

/// The low half of a word holds its low 16 bits, the high half the rest.
proof fn lemma_halves(v: u32, i: u32)
    requires
        i < 16,
    ensures
        word_bit(v as u16, i as int) == value_bit(v, i as int),
        word_bit((v >> 16u32) as u16, i as int) == value_bit(v, i + 16),
{
    let j = (i + 16) as u32;
    let k = i as u16;
    assert((((v as u16) >> k) & 1u16 == 1u16) == ((v >> i) & 1u32 == 1u32)) by (bit_vector)
        requires k == i as u16, i < 16u32;
    assert(((((v >> 16u32) as u16) >> k) & 1u16 == 1u16) == ((v >> j) & 1u32 == 1u32))
        by (bit_vector)
        requires k == i as u16, j == i + 16, i < 16u32;
}

/// A word put together from two halves has their bits.
proof fn lemma_join_halves(lo: u16, hi: u16, i: u32)
    requires
        i < 32,
    ensures
        value_bit((lo as u32) | ((hi as u32) << 16u32), i as int) == if i < 16 {
            word_bit(lo, i as int)
        } else {
            word_bit(hi, i - 16)
        },
        value_bit(lo as u32, i as int) == (i < 16 && word_bit(lo, i as int)),
{
    if i < 16 {
        let k = i as u16;
        assert(((((lo as u32) | ((hi as u32) << 16u32)) >> i) & 1u32 == 1u32) == ((lo >> k) & 1u16
            == 1u16)) by (bit_vector)
            requires k == i as u16, i < 16u32;
        assert((((lo as u32) >> i) & 1u32 == 1u32) == ((lo >> k) & 1u16 == 1u16)) by (bit_vector)
            requires k == i as u16, i < 16u32;
    } else {
        let k = (i - 16) as u16;
        assert(((((lo as u32) | ((hi as u32) << 16u32)) >> i) & 1u32 == 1u32) == ((hi >> k) & 1u16
            == 1u16)) by (bit_vector)
            requires k as u32 + 16 == i, 16u32 <= i < 32u32;
        assert((((lo as u32) >> i) & 1u32) == 0u32) by (bit_vector)
            requires 16u32 <= i < 32u32;
    }
}

/// Writes the low `bit_length` bits (at most 32) of `value` into `data`,
/// starting at bit `bit_offset`: a field of up to 16 bits in one write, a
/// longer one as its low 16 bits and then the rest.
pub fn write_field(data: &mut [u8], bit_offset: usize, bit_length: usize, value: u32)
    requires
        bit_length <= 32,
        bit_length > 0 ==> bit_offset + bit_length - 1 <= usize::MAX,
        bit_length > 0 ==> (bit_offset + bit_length - 1) / 8 < old(data)@.len(),
    ensures
        encodes_wide(old(data)@, final(data)@, bit_offset as int, bit_length as int, value),
{
    let ghost before = data@;
    if bit_length <= 16 {
        encode_bitfield(data, bit_offset, bit_length, value as u16);
        proof {
            assert forall|p: int| bit_offset <= p < bit_offset + bit_length implies #[trigger] buffer_bit(
                data@,
                p,
            ) == value_bit(value, p - bit_offset) by {
                lemma_halves(value, (p - bit_offset) as u32);
            }
        }
    } else {
        encode_bitfield(data, bit_offset, 16, value as u16);
        let ghost mid = data@;
        encode_bitfield(data, bit_offset + 16, bit_length - 16, (value >> 16u32) as u16);
        proof {
            assert forall|p: int| bit_offset <= p < bit_offset + bit_length implies #[trigger] buffer_bit(
                data@,
                p,
            ) == value_bit(value, p - bit_offset) by {
                if p < bit_offset + 16 {
                    assert(buffer_bit(data@, p) == buffer_bit(mid, p));
                    lemma_halves(value, (p - bit_offset) as u32);
                } else {
                    lemma_halves(value, (p - bit_offset - 16) as u32);
                }
            }
            assert forall|p: int| !(bit_offset <= p < bit_offset + bit_length) implies #[trigger] buffer_bit(
                data@,
                p,
            ) == buffer_bit(before, p) by {
                assert(buffer_bit(data@, p) == buffer_bit(mid, p));
            }
        }
    }
}

/// Reads the field `bit_offset .. bit_offset + bit_length` (at most 32
/// bits) of `data`: a field of up to 16 bits in one read, a longer one as its
/// low 16 bits and then the rest. Bits past the end of `data` read as zero.
pub fn read_field(data: &[u8], bit_offset: usize, bit_length: usize) -> (w: u32)
    requires
        bit_length <= 32,
        bit_length > 0 ==> bit_offset + bit_length - 1 <= usize::MAX,
    ensures
        reads_as(data@, bit_offset as int, bit_length as int, w),
        w == field_bits(data@, bit_offset as int, bit_length as int),
{
    let w: u32 = if bit_length <= 16 {
        let lo = decode_bitfield(data, bit_offset, bit_length);
        proof {
            assert forall|i: int| 0 <= i < 32 implies #[trigger] value_bit(lo as u32, i) == (i
                < bit_length && buffer_bit(data@, bit_offset + i)) by {
                lemma_join_halves(lo, 0, i as u32);
            }
        }
        lo as u32
    } else {
        let lo = decode_bitfield(data, bit_offset, 16);
        let hi = decode_bitfield(data, bit_offset + 16, bit_length - 16);
        proof {
            assert forall|i: int| 0 <= i < 32 implies #[trigger] value_bit(
                (lo as u32) | ((hi as u32) << 16u32),
                i,
            ) == (i < bit_length && buffer_bit(data@, bit_offset + i)) by {
                lemma_join_halves(lo, hi, i as u32);
                if i >= 16 {
                    assert(bit_offset + 16 + (i - 16) == bit_offset + i);
                }
            }
        }
        (lo as u32) | ((hi as u32) << 16u32)
    };
    proof {
        lemma_field_bits_unique(data@, bit_offset as int, bit_length as int, w);
    }
    w
}

/// Reads a two's-complement value of `bit_length` bits (1 to 31) out of
/// `raw`: when its top bit is set, the bits above the field are filled with
/// ones. A length of 0, or of 32 and more, keeps the bits as they are.
pub fn sign_extend_wide(raw: u32, bit_length: usize) -> (r: i32)
    ensures
        r == sign_extended_wide(raw, bit_length as nat),
{
    if bit_length == 0 || bit_length >= 32 {
        return raw as i32;
    }
    let len = bit_length as u32;
    let top = len - 1;
    assert((1u32 << len) >= 1) by (bit_vector)
        requires len < 32;
    let low_mask = (1u32 << len) - 1;
    proof {
        assert((raw & (1u32 << top)) != 0u32 <==> (raw >> top) & 1u32 == 1u32) by (bit_vector)
            requires top < 31u32;
        assert(low_mask == wide_mask(bit_length as nat));
    }
    if raw & (1u32 << top) != 0 {
        (raw | !low_mask) as i32
    } else {
        raw as i32
    }
}

/// Reading a field of up to 32 bits right after writing it gives the
/// written value cut to the field's width:
/// `read_field(write_field(v)) == v & wide_mask(bit_length)`.
pub proof fn law_read_after_write_wide(
    before: Seq<u8>,
    after: Seq<u8>,
    bit_offset: int,
    bit_length: int,
    value: u32,
)
    requires
        0 <= bit_length <= 32,
        encodes_wide(before, after, bit_offset, bit_length, value),
    ensures
        field_bits(after, bit_offset, bit_length) == value & wide_mask(bit_length as nat),
{
    let m = value & wide_mask(bit_length as nat);
    assert forall|i: int| 0 <= i < 32 implies #[trigger] value_bit(m, i) == (i < bit_length
        && buffer_bit(after, bit_offset + i)) by {
        lemma_wide_mask_bits(value, bit_length as u32, i as u32);
        if i < bit_length {
            assert(buffer_bit(after, bit_offset + i) == value_bit(value, bit_offset + i - bit_offset));
        }
    }
    lemma_field_bits_unique(after, bit_offset, bit_length, m);
}

/// `1 << n` as a power of two, for the shift amounts a 32-bit word allows.
proof fn lemma_shift_pow2_wide(n: u32)
    requires
        n <= 31,
    ensures
        (1u32 << n) as int == pow2(n as nat),
{
    vstd::bits::lemma_u32_pow2_no_overflow(n as nat);
    vstd::bits::lemma_u32_shl_is_mul(1u32, n);
}

/// Sign extension reads a field as a two's-complement number: a raw value
/// of `bit_length` bits (1 to 31) whose top bit is set stands for
/// `raw - 2^bit_length`, one whose top bit is clear for itself.
pub proof fn law_sign_extend_wide_is_twos_complement(raw: u32, bit_length: nat)
    requires
        1 <= bit_length <= 31,
        raw < pow2(bit_length),
    ensures
        sign_extended_wide(raw, bit_length) as int == if raw >= pow2((bit_length - 1) as nat) {
            raw - pow2(bit_length)
        } else {
            raw as int
        },
{
    let len = bit_length as u32;
    let top = (len - 1) as u32;
    lemma_shift_pow2_wide(len);
    lemma_shift_pow2_wide(top);
    assert({
        &&& ((raw >> top) & 1u32 == 1u32) == (raw >= (1u32 << top))
        &&& raw >= (1u32 << top) ==> ((raw | !(((1u32 << len) - 1) as u32)) as i32) as int
            == raw as int - (1u32 << len) as int
        &&& raw < (1u32 << top) ==> (raw as i32) as int == raw as int
    }) by (bit_vector)
        requires
            raw < (1u32 << len),
            top + 1 == len,
            1u32 <= len <= 31u32,
    ;
    assert(value_bit(raw, bit_length - 1) == ((raw >> top) & 1u32 == 1u32));
    assert(wide_mask(bit_length) == ((1u32 << len) - 1) as u32);
}

/// A signed value that fits in `bit_length` bits (1 to 32), stored as its
/// low `bit_length` bits, sign-extends back to itself: a signed field
/// written with an in-range value reads back as that value.
pub proof fn law_sign_extend_wide_after_truncation(value: i32, bit_length: nat)
    requires
        1 <= bit_length <= 32,
        -pow2((bit_length - 1) as nat) <= value < pow2((bit_length - 1) as nat),
    ensures
        sign_extended_wide((value as u32) & wide_mask(bit_length), bit_length) == value,
{
    let u = value as u32;
    if bit_length == 32 {
        assert(((u & 0xFFFF_FFFFu32) as i32) == value) by (bit_vector)
            requires
                u == value as u32,
        ;
    } else {
        let len = bit_length as u32;
        let top = (len - 1) as u32;
        lemma_shift_pow2_wide(len);
        lemma_shift_pow2_wide(top);
        let raw = u & wide_mask(bit_length);
        assert(wide_mask(bit_length) == ((1u32 << len) - 1) as u32);
        assert({
            &&& (u & (((1u32 << len) - 1) as u32)) < (1u32 << len)
            &&& 0 <= value < (1u32 << top) as int ==> (u & (((1u32 << len) - 1) as u32)) as int
                == value as int
            &&& -((1u32 << top) as int) <= value < 0 ==> (u & (((1u32 << len) - 1) as u32)) as int
                == value as int + (1u32 << len) as int
            &&& (1u32 << len) as int == 2 * (1u32 << top) as int
        }) by (bit_vector)
            requires
                u == value as u32,
                top + 1 == len,
                1u32 <= len <= 31u32,
        ;
        law_sign_extend_wide_is_twos_complement(raw, bit_length);
    }
}

} // verus!
