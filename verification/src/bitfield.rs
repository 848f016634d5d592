//! Packing values into and out of bit ranges of a byte buffer.
//!
//! Bits are numbered little-endian: bit `p` of a buffer is bit `p % 8` of
//! byte `p / 8`, and bit `i` of a field is bit `offset + i` of the buffer.

use vstd::arithmetic::power2::pow2;
use vstd::prelude::*;

verus! {

/// Bit `pos` of the byte buffer; bits past the end of the buffer read as zero.
pub open spec fn buffer_bit(data: Seq<u8>, pos: int) -> bool {
    0 <= pos && pos / 8 < data.len() && (data[pos / 8] >> ((pos % 8) as u8)) & 1u8 == 1u8
}

/// Bit `i` (0 <= i < 16) of a 16-bit word.
pub open spec fn word_bit(v: u16, i: int) -> bool {
    (v >> (i as u16)) & 1u16 == 1u16
}

/// Setting or clearing bit `k` of a byte changes bit `k` alone.
proof fn lemma_byte_bit_update(b: u8, k: u8, set: bool, j: u8)
    requires
        k < 8,
        j < 8,
    ensures
        ({
            let nb = if set { b | (1u8 << k) } else { b & !(1u8 << k) };
            &&& j == k ==> (((nb >> j) & 1u8 == 1u8) == set)
            &&& j != k ==> (((nb >> j) & 1u8 == 1u8) == ((b >> j) & 1u8 == 1u8))
        }),
{
    if set {
        assert(((b | (1u8 << k)) >> k) & 1u8 == 1u8) by (bit_vector)
            requires k < 8u8;
        assert(j != k ==> (((b | (1u8 << k)) >> j) & 1u8 == 1u8) == ((b >> j) & 1u8 == 1u8))
            by (bit_vector)
            requires k < 8u8, j < 8u8;
    } else {
        assert(((b & !(1u8 << k)) >> k) & 1u8 == 0u8) by (bit_vector)
            requires k < 8u8;
        assert(j != k ==> (((b & !(1u8 << k)) >> j) & 1u8 == 1u8) == ((b >> j) & 1u8 == 1u8))
            by (bit_vector)
            requires k < 8u8, j < 8u8;
    }
}

/// The mask that keeps the low `bit_length` bits of a word.
pub open spec fn field_mask(bit_length: nat) -> u16 {
    if bit_length >= 16 { 0xFFFFu16 } else { ((1u16 << (bit_length as u16)) - 1) as u16 }
}

/// Masking with `field_mask(len)` keeps exactly the bits below `len`.
pub proof fn lemma_mask_bits(value: u16, len: u16, i: u16)
    requires
        len <= 16,
        i < 16,
    ensures
        word_bit(value & field_mask(len as nat), i as int) == (i < len && word_bit(value, i as int)),
{
    if len >= 16 {
        assert(((value & 0xFFFFu16) >> i) & 1u16 == (value >> i) & 1u16) by (bit_vector);
    } else {
        assert((((value & (((1u16 << len) - 1) as u16)) >> i) & 1u16 == 1u16) == (i < len && (
        value >> i) & 1u16 == 1u16)) by (bit_vector)
            requires len < 16u16, i < 16u16;
    }
}

/// `after` is `before` with bits `bit_offset .. bit_offset + bit_length`
/// replaced by the low `bit_length` bits of `value`, all other bits unchanged.
pub open spec fn encodes(
    before: Seq<u8>,
    after: Seq<u8>,
    bit_offset: int,
    bit_length: int,
    value: u16,
) -> bool {
    &&& after.len() == before.len()
    &&& forall|p: int|
        bit_offset <= p < bit_offset + bit_length ==> #[trigger] buffer_bit(after, p) == word_bit(
            value,
            p - bit_offset,
        )
    &&& forall|p: int|
        !(bit_offset <= p < bit_offset + bit_length) ==> #[trigger] buffer_bit(after, p)
            == buffer_bit(before, p)
}

/// Writes the low `bit_length` bits of `value` into `data`, starting at bit
/// `bit_offset`; every other bit of `data` keeps its value.
pub fn encode_bitfield(data: &mut [u8], bit_offset: usize, bit_length: usize, value: u16)
    requires
        bit_length <= 16,
        bit_length > 0 ==> bit_offset + bit_length - 1 <= usize::MAX,
        bit_length > 0 ==> (bit_offset + bit_length - 1) / 8 < old(data)@.len(),
    ensures
        encodes(old(data)@, final(data)@, bit_offset as int, bit_length as int, value),
{
    let mask: u16 = if bit_length >= 16 {
        0xFFFF
    } else {
        let len = bit_length as u16;
        assert((1u16 << len) >= 1) by (bit_vector)
            requires len < 16;
        (1u16 << len) - 1
    };
    let masked_value = value & mask;

    let mut i: usize = 0;
    while i < bit_length
        invariant
            i <= bit_length <= 16,
            masked_value == value & field_mask(bit_length as nat),
            bit_length > 0 ==> bit_offset + bit_length - 1 <= usize::MAX,
            bit_length > 0 ==> (bit_offset + bit_length - 1) / 8 < data@.len(),
            data@.len() == old(data)@.len(),
            forall|p: int|
                bit_offset <= p < bit_offset + i ==> buffer_bit(data@, p) == word_bit(
                    value,
                    p - bit_offset,
                ),
            forall|p: int|
                !(bit_offset <= p < bit_offset + i) ==> buffer_bit(data@, p) == buffer_bit(
                    old(data)@,
                    p,
                ),
        decreases bit_length - i,
    {
        let bit_pos = bit_offset + i;
        let byte_idx = bit_pos / 8;
        let bit_in_byte = (bit_pos % 8) as u8;
        let ghost before = data@;
        let set = (masked_value >> i as u16) & 1 == 1;
        proof {
            lemma_mask_bits(value, bit_length as u16, i as u16);
        }
        if set {
            data[byte_idx] = data[byte_idx] | (1u8 << bit_in_byte);
        } else {
            data[byte_idx] = data[byte_idx] & !(1u8 << bit_in_byte);
        }
        proof {
            assert forall|p: int| 0 <= p && p / 8 < data@.len() implies buffer_bit(data@, p) == (
            if p == bit_pos {
                set
            } else {
                buffer_bit(before, p)
            }) by {
                if p / 8 == byte_idx as int {
                    lemma_byte_bit_update(before[byte_idx as int], bit_in_byte, set, (p % 8) as u8);
                }
            }
        }
        i = i + 1;
    }
}


/// Bit `j` of the word that `decode_bitfield` reads: some field bit `k` with
/// `k % 16 == j` is set (for fields of at most 16 bits, just field bit `j`).
pub open spec fn decoded_bit(data: Seq<u8>, bit_offset: int, bit_length: int, j: int) -> bool {
    exists|k: int| 0 <= k < bit_length && k % 16 == j && #[trigger] buffer_bit(data, bit_offset + k)
}

/// `value` is what reading the field `bit_offset .. bit_offset + bit_length`
/// of `data` gives.
pub open spec fn decodes_to(data: Seq<u8>, bit_offset: int, bit_length: int, value: u16) -> bool {
    forall|j: int| 0 <= j < 16 ==> #[trigger] word_bit(value, j) == decoded_bit(data, bit_offset, bit_length, j)
}

/// The word that reading the field gives.
pub open spec fn field_word(data: Seq<u8>, bit_offset: int, bit_length: int) -> u16 {
    choose|w: u16| decodes_to(data, bit_offset, bit_length, w)
}

/// Setting bit `s` of a word changes bit `s` alone.
proof fn lemma_word_bit_set(v: u16, s: u16, j: u16)
    requires
        s < 16,
        j < 16,
    ensures
        word_bit(v | (1u16 << s), j as int) == (word_bit(v, j as int) || j == s),
{
    assert((((v | (1u16 << s)) >> j) & 1u16 == 1u16) == ((v >> j) & 1u16 == 1u16 || j == s))
        by (bit_vector)
        requires s < 16u16, j < 16u16;
}

/// Two words with the same sixteen bits are equal.
pub proof fn lemma_word_eq_from_bits(a: u16, b: u16)
    requires
        forall|j: int| 0 <= j < 16 ==> word_bit(a, j) == word_bit(b, j),
    ensures
        a == b,
{
    assert(word_bit(a, 0) == word_bit(b, 0));
    assert(word_bit(a, 1) == word_bit(b, 1));
    assert(word_bit(a, 2) == word_bit(b, 2));
    assert(word_bit(a, 3) == word_bit(b, 3));
    assert(word_bit(a, 4) == word_bit(b, 4));
    assert(word_bit(a, 5) == word_bit(b, 5));
    assert(word_bit(a, 6) == word_bit(b, 6));
    assert(word_bit(a, 7) == word_bit(b, 7));
    assert(word_bit(a, 8) == word_bit(b, 8));
    assert(word_bit(a, 9) == word_bit(b, 9));
    assert(word_bit(a, 10) == word_bit(b, 10));
    assert(word_bit(a, 11) == word_bit(b, 11));
    assert(word_bit(a, 12) == word_bit(b, 12));
    assert(word_bit(a, 13) == word_bit(b, 13));
    assert(word_bit(a, 14) == word_bit(b, 14));
    assert(word_bit(a, 15) == word_bit(b, 15));
    assert(a == b) by (bit_vector)
        requires
            ((a >> 0u16) & 1u16 == 1u16) == ((b >> 0u16) & 1u16 == 1u16),
            ((a >> 1u16) & 1u16 == 1u16) == ((b >> 1u16) & 1u16 == 1u16),
            ((a >> 2u16) & 1u16 == 1u16) == ((b >> 2u16) & 1u16 == 1u16),
            ((a >> 3u16) & 1u16 == 1u16) == ((b >> 3u16) & 1u16 == 1u16),
            ((a >> 4u16) & 1u16 == 1u16) == ((b >> 4u16) & 1u16 == 1u16),
            ((a >> 5u16) & 1u16 == 1u16) == ((b >> 5u16) & 1u16 == 1u16),
            ((a >> 6u16) & 1u16 == 1u16) == ((b >> 6u16) & 1u16 == 1u16),
            ((a >> 7u16) & 1u16 == 1u16) == ((b >> 7u16) & 1u16 == 1u16),
            ((a >> 8u16) & 1u16 == 1u16) == ((b >> 8u16) & 1u16 == 1u16),
            ((a >> 9u16) & 1u16 == 1u16) == ((b >> 9u16) & 1u16 == 1u16),
            ((a >> 10u16) & 1u16 == 1u16) == ((b >> 10u16) & 1u16 == 1u16),
            ((a >> 11u16) & 1u16 == 1u16) == ((b >> 11u16) & 1u16 == 1u16),
            ((a >> 12u16) & 1u16 == 1u16) == ((b >> 12u16) & 1u16 == 1u16),
            ((a >> 13u16) & 1u16 == 1u16) == ((b >> 13u16) & 1u16 == 1u16),
            ((a >> 14u16) & 1u16 == 1u16) == ((b >> 14u16) & 1u16 == 1u16),
            ((a >> 15u16) & 1u16 == 1u16) == ((b >> 15u16) & 1u16 == 1u16),
    ;
}

/// A word that a field reads as is the field's word.
pub proof fn lemma_field_word_unique(data: Seq<u8>, bit_offset: int, bit_length: int, w: u16)
    requires
        decodes_to(data, bit_offset, bit_length, w),
    ensures
        w == field_word(data, bit_offset, bit_length),
{
    let c = field_word(data, bit_offset, bit_length);
    assert(decodes_to(data, bit_offset, bit_length, c));
    assert forall|j: int| 0 <= j < 16 implies word_bit(w, j) == word_bit(c, j) by {}
    lemma_word_eq_from_bits(w, c);
}

/// Reads `bit_length` bits of `data` starting at bit `bit_offset`; bits past
/// the end of `data` read as zero. Field bit `k` lands on bit `k % 16` of the
/// result, so a field of at most 16 bits is read exactly, and the bits of a
/// longer field above the sixteenth wrap around instead of stopping the read.
pub fn decode_bitfield(data: &[u8], bit_offset: usize, bit_length: usize) -> (value: u16)
    requires
        bit_length > 0 ==> bit_offset + bit_length - 1 <= usize::MAX,
    ensures
        decodes_to(data@, bit_offset as int, bit_length as int, value),
        value == field_word(data@, bit_offset as int, bit_length as int),
        bit_length <= 16 ==> forall|j: int|
            0 <= j < 16 ==> word_bit(value, j) == (j < bit_length && buffer_bit(
                data@,
                bit_offset + j,
            )),
{
    let mut value = 0u16;
    let mut i: usize = 0;
    assert forall|j: int| 0 <= j < 16 implies !word_bit(0u16, j) by {
        let jj = j as u16;
        assert((0u16 >> jj) & 1u16 == 0u16) by (bit_vector);
    }
    while i < bit_length
        invariant
            i <= bit_length,
            bit_length > 0 ==> bit_offset + bit_length - 1 <= usize::MAX,
            forall|j: int|
                0 <= j < 16 ==> word_bit(value, j) == decoded_bit(
                    data@,
                    bit_offset as int,
                    i as int,
                    j,
                ),
        decreases bit_length - i,
    {
        let bit_pos = bit_offset + i;
        let byte_idx = bit_pos / 8;
        let bit_in_byte = (bit_pos % 8) as u8;
        let ghost old_value = value;
        let shift = (i % 16) as u16;
        if byte_idx < data.len() && (data[byte_idx] >> bit_in_byte) & 1 == 1 {
            value = value | (1u16 << shift);
            assert(buffer_bit(data@, bit_pos as int));
            assert forall|j: int| 0 <= j < 16 implies word_bit(value, j) == decoded_bit(
                data@,
                bit_offset as int,
                i + 1,
                j,
            ) by {
                lemma_word_bit_set(old_value, shift, j as u16);
                if j == shift as int {
                    assert(buffer_bit(data@, bit_offset + i));
                } else {
                    if decoded_bit(data@, bit_offset as int, i + 1, j) {
                        let k = choose|k: int|
                            0 <= k < i + 1 && k % 16 == j && #[trigger] buffer_bit(
                                data@,
                                bit_offset + k,
                            );
                        assert(k < i);
                    }
                }
            }
        } else {
            assert(!buffer_bit(data@, bit_pos as int));
            assert forall|j: int| 0 <= j < 16 implies word_bit(value, j) == decoded_bit(
                data@,
                bit_offset as int,
                i + 1,
                j,
            ) by {
                if decoded_bit(data@, bit_offset as int, i + 1, j) {
                    let k = choose|k: int|
                        0 <= k < i + 1 && k % 16 == j && #[trigger] buffer_bit(
                            data@,
                            bit_offset + k,
                        );
                    assert(k < i);
                }
            }
        }
        i = i + 1;
    }
    proof {
        lemma_field_word_unique(data@, bit_offset as int, bit_length as int, value);
        if bit_length <= 16 {
            assert forall|j: int| 0 <= j < 16 implies word_bit(value, j) == (j < bit_length
                && buffer_bit(data@, bit_offset + j)) by {
                if j < bit_length && buffer_bit(data@, bit_offset + j) {
                    assert(decoded_bit(data@, bit_offset as int, bit_length as int, j));
                }
            }
        }
    }
    value
}


/// The two's-complement value of a `bit_length`-bit field whose raw bits are `raw`.
pub open spec fn signed_field_value(raw: int, bit_length: nat) -> int {
    if raw >= pow2((bit_length - 1) as nat) {
        raw - pow2(bit_length)
    } else {
        raw
    }
}

/// What `sign_extend` makes of `value` for a field of `bit_length` bits.
pub open spec fn sign_extended(value: u16, bit_length: nat) -> i16 {
    if bit_length == 0 || bit_length >= 16 {
        value as i16
    } else if word_bit(value, bit_length - 1) {
        (value | !field_mask(bit_length)) as i16
    } else {
        value as i16
    }
}

/// `1 << n` as a power of two, for the shift amounts a 16-bit field can have.
proof fn lemma_shift_pow2(n: u32)
    requires
        n <= 16,
    ensures
        (1u32 << n) as int == pow2(n as nat),
{
    vstd::bits::lemma_u32_pow2_no_overflow(n as nat);
    vstd::bits::lemma_u32_shl_is_mul(1u32, n);
}

/// Reads a `bit_length`-bit two's-complement value: when its top bit (bit
/// `bit_length - 1`) is set, the bits above the field are filled with ones.
/// A length of 0, 16 or more leaves the bits as they are.
pub fn sign_extend(value: u16, bit_length: usize) -> (result: i16)
    ensures
        result == sign_extended(value, bit_length as nat),
        1 <= bit_length <= 16 && value < pow2(bit_length as nat) ==> result == signed_field_value(
            value as int,
            bit_length as nat,
        ),
{
    proof {
        if 1 <= bit_length <= 16 {
            lemma_shift_pow2(bit_length as u32);
            lemma_shift_pow2((bit_length - 1) as u32);
        }
    }
    if bit_length == 0 || bit_length > 16 {
        return value as i16;
    }
    if bit_length == 16 {
        proof {
            assert(value >= 0x8000u16 ==> (value as i16) as int == value as int - 0x10000)
                by (bit_vector);
            assert(value < 0x8000u16 ==> (value as i16) as int == value as int) by (bit_vector);
            assert((1u32 << 15u32) == 0x8000u32) by (bit_vector);
            assert((1u32 << 16u32) == 0x10000u32) by (bit_vector);
        }
        return value as i16;
    }
    let len = bit_length as u16;
    let top = len - 1;
    let sign_bit = 1u16 << top;
    let ghost len32 = bit_length as u32;
    let ghost top32 = top as u32;
    assert((1u16 << len) >= 1) by (bit_vector)
        requires len < 16;
    let low_mask = (1u16 << len) - 1;
    proof {
        assert((value & (1u16 << top)) != 0u16 <==> (value >> top) & 1u16 == 1u16) by (bit_vector)
            requires top < 15u16;
        assert((1u16 << len) as u32 == (1u32 << len32)) by (bit_vector)
            requires len32 == len as u32, len < 16u16;
        assert((1u16 << top) as u32 == (1u32 << top32)) by (bit_vector)
            requires top32 == top as u32, top < 15u16;
        assert(low_mask == field_mask(bit_length as nat));
    }
    if value & sign_bit != 0 {
        let extension_mask = !low_mask;
        proof {
            assert(value < (1u16 << len) && (value & (1u16 << top)) != 0u16 ==> ((value
                | !low_mask) as i16) as int == value as int - (1u16 << len) as int) by (bit_vector)
                requires
                    top + 1 == len,
                    1u16 <= len < 16u16,
                    low_mask + 1 == (1u16 << len),
            ;
            assert((value & (1u16 << top)) != 0u16 ==> value >= (1u16 << top)) by (bit_vector)
                requires top < 15u16;
        }
        (value | extension_mask) as i16
    } else {
        proof {
            assert(value < (1u16 << len) && (value & (1u16 << top)) == 0u16 ==> value < (1u16
                << top)) by (bit_vector)
                requires top + 1 == len, 1u16 <= len < 16u16;
            assert(value < (1u16 << len) ==> (value as i16) as int == value as int) by (bit_vector)
                requires len < 16u16;
        }
        value as i16
    }
}


/// For a field of at most 16 bits, result bit `j` is field bit `j`.
pub proof fn lemma_decoded_bit_short(data: Seq<u8>, bit_offset: int, bit_length: int, j: int)
    requires
        0 <= bit_length <= 16,
        0 <= j < 16,
    ensures
        decoded_bit(data, bit_offset, bit_length, j) == (j < bit_length && buffer_bit(
            data,
            bit_offset + j,
        )),
{
    if j < bit_length && buffer_bit(data, bit_offset + j) {
        assert(j % 16 == j);
    }
}

/// Reading a field back right after writing it gives the written value cut
/// to the field's width: `decode(encode(v)) == v & mask(bit_length)`.
pub proof fn law_decode_after_encode(
    before: Seq<u8>,
    after: Seq<u8>,
    bit_offset: int,
    bit_length: int,
    value: u16,
    read: u16,
)
    requires
        0 <= bit_length <= 16,
        encodes(before, after, bit_offset, bit_length, value),
        decodes_to(after, bit_offset, bit_length, read),
    ensures
        read == value & field_mask(bit_length as nat),
{
    assert forall|j: int| 0 <= j < 16 implies word_bit(read, j) == word_bit(
        value & field_mask(bit_length as nat),
        j,
    ) by {
        lemma_decoded_bit_short(after, bit_offset, bit_length, j);
        lemma_mask_bits(value, bit_length as u16, j as u16);
        if j < bit_length {
            assert(buffer_bit(after, bit_offset + j) == word_bit(value, j));
        }
    }
    lemma_word_eq_from_bits(read, value & field_mask(bit_length as nat));
}

/// Writing one field leaves every field that shares no bit with it reading
/// as before, so fields packed side by side do not disturb each other.
pub proof fn law_encode_keeps_disjoint_fields(
    before: Seq<u8>,
    after: Seq<u8>,
    bit_offset: int,
    bit_length: int,
    value: u16,
    other_offset: int,
    other_length: int,
    read_before: u16,
    read_after: u16,
)
    requires
        encodes(before, after, bit_offset, bit_length, value),
        other_offset + other_length <= bit_offset || bit_offset + bit_length <= other_offset,
        decodes_to(before, other_offset, other_length, read_before),
        decodes_to(after, other_offset, other_length, read_after),
    ensures
        read_after == read_before,
{
    assert forall|j: int| 0 <= j < 16 implies word_bit(read_after, j) == word_bit(read_before, j) by {
        if decoded_bit(after, other_offset, other_length, j) {
            let k = choose|k: int|
                0 <= k < other_length && k % 16 == j && #[trigger] buffer_bit(
                    after,
                    other_offset + k,
                );
            assert(buffer_bit(before, other_offset + k));
        }
        if decoded_bit(before, other_offset, other_length, j) {
            let k = choose|k: int|
                0 <= k < other_length && k % 16 == j && #[trigger] buffer_bit(
                    before,
                    other_offset + k,
                );
            assert(buffer_bit(after, other_offset + k));
        }
    }
    lemma_word_eq_from_bits(read_after, read_before);
}

/// Writing a field twice leaves the same bits as writing the second value alone.
pub proof fn law_encode_overwrites(
    first: Seq<u8>,
    second: Seq<u8>,
    third: Seq<u8>,
    bit_offset: int,
    bit_length: int,
    value1: u16,
    value2: u16,
)
    requires
        encodes(first, second, bit_offset, bit_length, value1),
        encodes(second, third, bit_offset, bit_length, value2),
    ensures
        encodes(first, third, bit_offset, bit_length, value2),
{
}

/// A signed value that fits in `bit_length` bits, stored as its low
/// `bit_length` bits, sign-extends back to itself.
pub proof fn law_sign_extend_after_truncation(value: i16, bit_length: nat)
    requires
        1 <= bit_length <= 16,
        -pow2((bit_length - 1) as nat) <= value < pow2((bit_length - 1) as nat),
    ensures
        ((value as u16) & field_mask(bit_length)) < pow2(bit_length),
        signed_field_value(((value as u16) & field_mask(bit_length)) as int, bit_length) == value,
{
    let len = bit_length as u16;
    let top = (len - 1) as u16;
    let ghost len32 = bit_length as u32;
    let ghost top32 = top as u32;
    lemma_shift_pow2(len32);
    lemma_shift_pow2(top32);
    let u = value as u16;
    if len == 16 {
        assert(u & 0xFFFFu16 == u) by (bit_vector);
        assert((1u32 << 16u32) == 0x10000u32) by (bit_vector);
        assert((1u32 << 15u32) == 0x8000u32) by (bit_vector);
        assert(value < 0 ==> (value as u16) as int == value as int + 0x10000) by (bit_vector);
        assert(value >= 0 ==> (value as u16) as int == value as int) by (bit_vector);
    } else {
        assert(field_mask(bit_length) == ((1u16 << len) - 1) as u16);
        assert((1u16 << len) as u32 == (1u32 << len32)) by (bit_vector)
            requires len32 == len as u32, len < 16u16;
        assert((1u16 << top) as u32 == (1u32 << top32)) by (bit_vector)
            requires top32 == top as u32, top < 15u16;
        assert((u & (((1u16 << len) - 1) as u16)) < (1u16 << len)) by (bit_vector)
            requires 1u16 <= len < 16u16;
        assert(0 <= value < (1u16 << top) as int ==> (u & (((1u16 << len) - 1) as u16)) as int
            == value as int) by (bit_vector)
            requires u == value as u16, top + 1 == len, 1u16 <= len < 16u16;
        assert(-((1u16 << top) as int) <= value < 0 ==> (u & (((1u16 << len) - 1) as u16)) as int
            == value as int + (1u16 << len) as int) by (bit_vector)
            requires u == value as u16, top + 1 == len, 1u16 <= len < 16u16;
        assert((1u16 << len) as int == 2 * (1u16 << top) as int) by (bit_vector)
            requires top + 1 == len, 1u16 <= len < 16u16;
    }
}

/// Two byte buffers of the same length with the same bits are equal.
pub proof fn lemma_buffer_eq_from_bits(a: Seq<u8>, b: Seq<u8>)
    requires
        a.len() == b.len(),
        forall|p: int| #[trigger] buffer_bit(a, p) == buffer_bit(b, p),
    ensures
        a == b,
{
    assert forall|j: int| 0 <= j < a.len() implies a[j] == b[j] by {
        let x = a[j];
        let y = b[j];
        assert((8 * j + 0) / 8 == j && (8 * j + 0) % 8 == 0);
        assert(buffer_bit(a, 8 * j + 0) == buffer_bit(b, 8 * j + 0));
        assert((8 * j + 1) / 8 == j && (8 * j + 1) % 8 == 1);
        assert(buffer_bit(a, 8 * j + 1) == buffer_bit(b, 8 * j + 1));
        assert((8 * j + 2) / 8 == j && (8 * j + 2) % 8 == 2);
        assert(buffer_bit(a, 8 * j + 2) == buffer_bit(b, 8 * j + 2));
        assert((8 * j + 3) / 8 == j && (8 * j + 3) % 8 == 3);
        assert(buffer_bit(a, 8 * j + 3) == buffer_bit(b, 8 * j + 3));
        assert((8 * j + 4) / 8 == j && (8 * j + 4) % 8 == 4);
        assert(buffer_bit(a, 8 * j + 4) == buffer_bit(b, 8 * j + 4));
        assert((8 * j + 5) / 8 == j && (8 * j + 5) % 8 == 5);
        assert(buffer_bit(a, 8 * j + 5) == buffer_bit(b, 8 * j + 5));
        assert((8 * j + 6) / 8 == j && (8 * j + 6) % 8 == 6);
        assert(buffer_bit(a, 8 * j + 6) == buffer_bit(b, 8 * j + 6));
        assert((8 * j + 7) / 8 == j && (8 * j + 7) % 8 == 7);
        assert(buffer_bit(a, 8 * j + 7) == buffer_bit(b, 8 * j + 7));
        assert(((x >> 0u8) & 1u8 == 1u8) == ((y >> 0u8) & 1u8 == 1u8));
        assert(((x >> 1u8) & 1u8 == 1u8) == ((y >> 1u8) & 1u8 == 1u8));
        assert(((x >> 2u8) & 1u8 == 1u8) == ((y >> 2u8) & 1u8 == 1u8));
        assert(((x >> 3u8) & 1u8 == 1u8) == ((y >> 3u8) & 1u8 == 1u8));
        assert(((x >> 4u8) & 1u8 == 1u8) == ((y >> 4u8) & 1u8 == 1u8));
        assert(((x >> 5u8) & 1u8 == 1u8) == ((y >> 5u8) & 1u8 == 1u8));
        assert(((x >> 6u8) & 1u8 == 1u8) == ((y >> 6u8) & 1u8 == 1u8));
        assert(((x >> 7u8) & 1u8 == 1u8) == ((y >> 7u8) & 1u8 == 1u8));
        assert(x == y) by (bit_vector)
            requires
                ((x >> 0u8) & 1u8 == 1u8) == ((y >> 0u8) & 1u8 == 1u8),
                ((x >> 1u8) & 1u8 == 1u8) == ((y >> 1u8) & 1u8 == 1u8),
                ((x >> 2u8) & 1u8 == 1u8) == ((y >> 2u8) & 1u8 == 1u8),
                ((x >> 3u8) & 1u8 == 1u8) == ((y >> 3u8) & 1u8 == 1u8),
                ((x >> 4u8) & 1u8 == 1u8) == ((y >> 4u8) & 1u8 == 1u8),
                ((x >> 5u8) & 1u8 == 1u8) == ((y >> 5u8) & 1u8 == 1u8),
                ((x >> 6u8) & 1u8 == 1u8) == ((y >> 6u8) & 1u8 == 1u8),
                ((x >> 7u8) & 1u8 == 1u8) == ((y >> 7u8) & 1u8 == 1u8),
        ;
    }
    assert(a =~= b);
}

/// Writing two fields that share no bit gives the same buffer in either
/// order.
pub proof fn law_encode_disjoint_fields_commute(
    start: Seq<u8>,
    first_a: Seq<u8>,
    both_a: Seq<u8>,
    first_b: Seq<u8>,
    both_b: Seq<u8>,
    offset1: int,
    length1: int,
    value1: u16,
    offset2: int,
    length2: int,
    value2: u16,
)
    requires
        offset1 + length1 <= offset2 || offset2 + length2 <= offset1,
        encodes(start, first_a, offset1, length1, value1),
        encodes(first_a, both_a, offset2, length2, value2),
        encodes(start, first_b, offset2, length2, value2),
        encodes(first_b, both_b, offset1, length1, value1),
    ensures
        both_a == both_b,
{
    assert forall|p: int| #[trigger] buffer_bit(both_a, p) == buffer_bit(both_b, p) by {
        assert(buffer_bit(both_a, p) == buffer_bit(first_a, p) || offset2 <= p < offset2 + length2);
        assert(buffer_bit(both_b, p) == buffer_bit(first_b, p) || offset1 <= p < offset1 + length1);
    }
    lemma_buffer_eq_from_bits(both_a, both_b);
}

} // verus!
