//! The J1939 message frame, and what the code generated for a message layout
//! does with it: fill the frame from field values, and read them back.

use crate::bitfield::buffer_bit;
use crate::wide_field::{
    field_bits, lemma_field_bits_unique, lemma_wide_mask_bits, read_field, reads_as,
    sign_extend_wide, sign_extended_wide, value_bit, wide_mask, write_field,
};
use crate::Error;
use vstd::prelude::*;

verus! {

/// Bytes of payload a message frame can carry (the multi-packet limit).
pub const MESSAGE_DATA_LEN: usize = 223;

/// A J1939 message: header and payload.
#[derive(Debug, Clone, Copy)]
pub struct J1939Message {
    /// Priority, 0 (highest) to 7.
    pub priority: u8,
    /// Parameter group number: what kind of message this is.
    pub pgn: u32,
    /// Address of the sending device.
    pub source_address: u8,
    /// Payload bytes.
    pub data: [u8; 223],
    /// Number of payload bytes in use.
    pub length: u8,
}

impl Default for J1939Message {
    /// Priority 6, every other field zero.
    fn default() -> (msg: Self)
        ensures
            msg.priority == 6,
            msg.pgn == 0,
            msg.source_address == 0,
            msg.length == 0,
            forall|i: int| 0 <= i < 223 ==> msg.data@[i] == 0,
    {
        J1939Message { priority: 6, pgn: 0, source_address: 0, data: [0u8; 223], length: 0 }
    }
}

/// Encodes a value of a message type into a message frame.
pub trait Marshall {
    /// Fills `msg` from `self`.
    fn marshall(&self, msg: &mut J1939Message) -> Result<(), Error>;
}

/// Decodes a message frame into a value of a message type.
pub trait Unmarshall: Sized {
    /// Reads a value out of `msg`, or says why it cannot.
    fn unmarshall(msg: &J1939Message) -> Result<Self, Error>;
}


/// How the raw bits of a field are read back.
#[derive(Debug, Clone, Copy, PartialEq, Eq, Structural)]
pub enum RawKind {
    /// Unsigned integers, enums, and scaled values with an offset.
    Unsigned,
    /// Signed integers, Q9 values, and scaled values without an offset.
    Signed,
    /// Bits that carry nothing and are sent as zero.
    Reserved,
}

/// Where a field of a message layout lies and how it is read.
#[derive(Debug, Clone, Copy, PartialEq, Eq, Structural)]
pub struct FieldLayout {
    pub bit_start: usize,
    pub bit_length: usize,
    pub kind: RawKind,
}

/// A field as read out of a message frame.
#[derive(Debug, Clone, Copy, PartialEq, Eq, Structural)]
pub enum FieldValue {
    Unsigned(u32),
    Signed(i32),
    Reserved,
}

/// The raw word written for an integer field value: the value cut to its
/// low 32 bits, as `value as u32` does for every integer type.
pub fn raw_word(value: i64) -> (w: u32)
    ensures
        w == value as u32,
{
    #[verifier::truncate]
    (value as u32)
}

impl FieldValue {
    /// The value as a 64-bit integer, from which a field of any integer or
    /// float type gets its value with `as`; a reserved field gives 0.
    pub fn as_i64(&self) -> (v: i64)
        ensures
            v == match *self {
                FieldValue::Unsigned(u) => u as i64,
                FieldValue::Signed(s) => s as i64,
                FieldValue::Reserved => 0i64,
            },
    {
        match *self {
            FieldValue::Unsigned(u) => u as i64,
            FieldValue::Signed(s) => s as i64,
            FieldValue::Reserved => 0,
        }
    }
}

/// Whether a layout meets what `marshall_fields` asks: every field inside
/// the payload, every field but reserved ones at most 32 bits wide, and no
/// two fields sharing a bit.
pub fn check_layout(fields: &[FieldLayout]) -> (ok: bool)
    ensures
        ok == (layout_fits(fields@) && layout_disjoint(fields@)),
{
    let n = fields.len();
    let mut i: usize = 0;
    while i < n
        invariant
            n == fields@.len(),
            i <= n,
            forall|k: int| 0 <= k < i ==> {
                &&& (#[trigger] fields@[k]).bit_start + fields@[k].bit_length <= 8 * MESSAGE_DATA_LEN
                &&& fields@[k].kind != RawKind::Reserved ==> fields@[k].bit_length <= 32
            },
        decreases n - i,
    {
        let f = fields[i];
        if (f.kind != RawKind::Reserved && f.bit_length > 32) || f.bit_length > 8 * MESSAGE_DATA_LEN
            || f.bit_start > 8 * MESSAGE_DATA_LEN - f.bit_length {
            assert(!layout_fits(fields@)) by {
                assert(fields@[i as int] == f);
            }
            return false;
        }
        i = i + 1;
    }
    let mut a: usize = 0;
    while a < n
        invariant
            n == fields@.len(),
            a <= n,
            layout_fits(fields@),
            forall|x: int, y: int|
                0 <= x < y < n && x < a ==> #[trigger] fields@[x].bit_start + fields@[x].bit_length
                    <= #[trigger] fields@[y].bit_start || fields@[y].bit_start + fields@[y].bit_length
                    <= fields@[x].bit_start,
        decreases n - a,
    {
        let mut b: usize = a + 1;
        while b < n
            invariant
                n == fields@.len(),
                a < n,
                a + 1 <= b <= n,
                layout_fits(fields@),
                forall|x: int, y: int|
                    0 <= x < y < n && (x < a || (x == a && y < b)) ==> #[trigger] fields@[x].bit_start
                        + fields@[x].bit_length <= #[trigger] fields@[y].bit_start
                        || fields@[y].bit_start + fields@[y].bit_length <= fields@[x].bit_start,
            decreases n - b,
        {
            let fa = fields[a];
            let fb = fields[b];
            assert(fa.bit_start + fa.bit_length <= 8 * MESSAGE_DATA_LEN);
            assert(fb.bit_start + fb.bit_length <= 8 * MESSAGE_DATA_LEN);
            if !(fa.bit_start + fa.bit_length <= fb.bit_start || fb.bit_start + fb.bit_length
                <= fa.bit_start) {
                return false;
            }
            b = b + 1;
        }
        a = a + 1;
    }
    true
}

/// Bit `p` of the payload belongs to the field.
pub open spec fn field_covers(field: FieldLayout, p: int) -> bool {
    field.bit_start <= p < field.bit_start + field.bit_length
}

/// Every field lies inside the payload, and every field that is written
/// (all but reserved ones) is at most 32 bits wide.
pub open spec fn layout_fits(fields: Seq<FieldLayout>) -> bool {
    forall|i: int|
        0 <= i < fields.len() ==> {
            &&& (#[trigger] fields[i]).bit_start + fields[i].bit_length <= 8 * MESSAGE_DATA_LEN
            &&& fields[i].kind != RawKind::Reserved ==> fields[i].bit_length <= 32
        }
}

/// The last bit of every field has a position that a `usize` holds.
pub open spec fn layout_addressable(fields: Seq<FieldLayout>) -> bool {
    forall|i: int|
        0 <= i < fields.len() && #[trigger] fields[i].bit_length > 0 ==> fields[i].bit_start
            + fields[i].bit_length - 1 <= usize::MAX
}

/// Every field that is read (all but reserved ones) is at most 32 bits wide,
/// and its last bit has a position that a `usize` holds.
pub open spec fn layout_readable(fields: Seq<FieldLayout>) -> bool {
    &&& layout_addressable(fields)
    &&& forall|i: int|
        0 <= i < fields.len() && #[trigger] fields[i].kind != RawKind::Reserved
            ==> fields[i].bit_length <= 32
}

/// No two fields share a bit.
pub open spec fn layout_disjoint(fields: Seq<FieldLayout>) -> bool {
    forall|i: int, j: int|
        0 <= i < j < fields.len() ==> #[trigger] fields[i].bit_start + fields[i].bit_length
            <= #[trigger] fields[j].bit_start || fields[j].bit_start + fields[j].bit_length
            <= fields[i].bit_start
}

/// Bit `p` of a payload filled from `values`: set exactly where a field that
/// is not reserved covers it and the field's value has that bit set.
pub open spec fn frame_bit(fields: Seq<FieldLayout>, values: Seq<u32>, p: int) -> bool {
    exists|i: int|
        0 <= i < fields.len() && fields[i].kind != RawKind::Reserved && #[trigger] field_covers(
            fields[i],
            p,
        ) && value_bit(values[i], p - fields[i].bit_start)
}

/// What reading `field` out of `data` gives.
pub open spec fn field_reading(data: Seq<u8>, field: FieldLayout) -> FieldValue {
    let raw = field_bits(data, field.bit_start as int, field.bit_length as int);
    match field.kind {
        RawKind::Unsigned => FieldValue::Unsigned(raw),
        RawKind::Signed => FieldValue::Signed(sign_extended_wide(raw, field.bit_length as nat)),
        RawKind::Reserved => FieldValue::Reserved,
    }
}

/// What reading a field written with `value` gives: the value cut to the
/// field's width, sign-extended for a signed field.
pub open spec fn reading_of_written(field: FieldLayout, value: u32) -> FieldValue {
    let raw = value & wide_mask(field.bit_length as nat);
    match field.kind {
        RawKind::Unsigned => FieldValue::Unsigned(raw),
        RawKind::Signed => FieldValue::Signed(sign_extended_wide(raw, field.bit_length as nat)),
        RawKind::Reserved => FieldValue::Reserved,
    }
}

/// Number of whole bytes that hold `length_bits` bits.
pub fn message_length_bytes(length_bits: u8) -> (bytes: u8)
    requires
        length_bits <= 248,
    ensures
        bytes == (length_bits + 7) / 8,
{
    (length_bits + 7) / 8
}

/// Fills a message frame the way a generated `Marshall` impl does: sets the
/// header, clears the whole payload, then writes each field that is not
/// reserved with its raw value.
pub fn marshall_fields(
    msg: &mut J1939Message,
    pgn: u32,
    priority: u8,
    length: u8,
    fields: &[FieldLayout],
    values: &[u32],
)
    requires
        fields.len() == values.len(),
        layout_fits(fields@),
        layout_disjoint(fields@),
    ensures
        final(msg).priority == priority,
        final(msg).pgn == pgn,
        final(msg).length == length,
        final(msg).source_address == old(msg).source_address,
        forall|p: int|
            0 <= p < 8 * MESSAGE_DATA_LEN ==> #[trigger] buffer_bit(final(msg).data@, p)
                == frame_bit(fields@, values@, p),
{
    msg.priority = priority;
    msg.pgn = pgn;
    msg.length = length;
    let mut b: usize = 0;
    while b < MESSAGE_DATA_LEN
        invariant
            b <= MESSAGE_DATA_LEN,
            msg.priority == priority,
            msg.pgn == pgn,
            msg.length == length,
            msg.source_address == old(msg).source_address,
            forall|j: int| 0 <= j < b ==> msg.data@[j] == 0,
        decreases MESSAGE_DATA_LEN - b,
    {
        msg.data[b] = 0;
        b = b + 1;
    }
    proof {
        assert forall|p: int| 0 <= p < 8 * MESSAGE_DATA_LEN implies !#[trigger] buffer_bit(
            msg.data@,
            p,
        ) by {
            let k = (p % 8) as u8;
            assert((0u8 >> k) & 1u8 == 0u8) by (bit_vector);
        }
    }
    let mut i: usize = 0;
    while i < fields.len()
        invariant
            i <= fields.len() == values.len(),
            layout_fits(fields@),
            layout_disjoint(fields@),
            msg.priority == priority,
            msg.pgn == pgn,
            msg.length == length,
            msg.source_address == old(msg).source_address,
            forall|p: int|
                0 <= p < 8 * MESSAGE_DATA_LEN ==> #[trigger] buffer_bit(msg.data@, p)
                    == frame_bit(fields@.subrange(0, i as int), values@.subrange(0, i as int), p),
        decreases fields.len() - i,
    {
        let f = fields[i];
        let ghost before = msg.data@;
        assert(f.bit_start + f.bit_length <= 8 * MESSAGE_DATA_LEN);
        if f.kind != RawKind::Reserved {
            write_field(&mut msg.data, f.bit_start, f.bit_length, values[i]);
        }
        proof {
            let fs = fields@.subrange(0, i + 1);
            let vs = values@.subrange(0, i + 1);
            let fs0 = fields@.subrange(0, i as int);
            let vs0 = values@.subrange(0, i as int);
            assert forall|p: int| 0 <= p < 8 * MESSAGE_DATA_LEN implies #[trigger] buffer_bit(
                msg.data@,
                p,
            ) == frame_bit(fs, vs, p) by {
                if field_covers(f, p) {
                    if f.kind != RawKind::Reserved {
                        assert(fs[i as int] == f);
                        if value_bit(values@[i as int], p - f.bit_start) {
                            assert(frame_bit(fs, vs, p));
                        } else {
                            if frame_bit(fs, vs, p) {
                                let j = choose|j: int|
                                    0 <= j < fs.len() && fs[j].kind != RawKind::Reserved
                                        && #[trigger] field_covers(fs[j], p) && value_bit(
                                        vs[j],
                                        p - fs[j].bit_start,
                                    );
                                assert(fields@[j] == fs[j]);
                                assert(j == i);
                            }
                        }
                    } else {
                        if frame_bit(fs, vs, p) {
                            let j = choose|j: int|
                                0 <= j < fs.len() && fs[j].kind != RawKind::Reserved
                                    && #[trigger] field_covers(fs[j], p) && value_bit(
                                    vs[j],
                                    p - fs[j].bit_start,
                                );
                            assert(fields@[j] == fs[j]);
                            assert(j == i);
                        }
                        if frame_bit(fs0, vs0, p) {
                            let j = choose|j: int|
                                0 <= j < fs0.len() && fs0[j].kind != RawKind::Reserved
                                    && #[trigger] field_covers(fs0[j], p) && value_bit(
                                    vs0[j],
                                    p - fs0[j].bit_start,
                                );
                            assert(fields@[j] == fs0[j]);
                        }
                    }
                    if frame_bit(fs0, vs0, p) {
                        let j = choose|j: int|
                            0 <= j < fs0.len() && fs0[j].kind != RawKind::Reserved
                                && #[trigger] field_covers(fs0[j], p) && value_bit(
                                vs0[j],
                                p - fs0[j].bit_start,
                            );
                        assert(fields@[j] == fs0[j]);
                    }
                    assert(!frame_bit(fs0, vs0, p));
                } else {
                    assert(buffer_bit(msg.data@, p) == buffer_bit(before, p));
                    if frame_bit(fs, vs, p) {
                        let j = choose|j: int|
                            0 <= j < fs.len() && fs[j].kind != RawKind::Reserved
                                && #[trigger] field_covers(fs[j], p) && value_bit(
                                vs[j],
                                p - fs[j].bit_start,
                            );
                        assert(j != i);
                        assert(fs0[j] == fs[j]);
                        assert(vs0[j] == vs[j]);
                        assert(frame_bit(fs0, vs0, p));
                    }
                    if frame_bit(fs0, vs0, p) {
                        let j = choose|j: int|
                            0 <= j < fs0.len() && fs0[j].kind != RawKind::Reserved
                                && #[trigger] field_covers(fs0[j], p) && value_bit(
                                vs0[j],
                                p - fs0[j].bit_start,
                            );
                        assert(fs[j] == fs0[j]);
                        assert(vs[j] == vs0[j]);
                        assert(frame_bit(fs, vs, p));
                    }
                }
            }
        }
        i = i + 1;
    }
    proof {
        assert(fields@.subrange(0, fields.len() as int) == fields@);
        assert(values@.subrange(0, values.len() as int) == values@);
    }
}


/// Reads a message frame the way a generated `Unmarshall` impl does: the
/// parameter group number is checked first, then the length, then every
/// field is read (signed fields sign-extended, reserved fields as nothing).
pub fn unmarshall_fields(msg: &J1939Message, pgn: u32, length: u8, fields: &[FieldLayout]) -> (r:
    Result<Vec<FieldValue>, Error>)
    requires
        layout_readable(fields@),
    ensures
        msg.pgn != pgn ==> r == Err::<Vec<FieldValue>, Error>(Error::InvalidPgn),
        msg.pgn == pgn && msg.length != length ==> r == Err::<Vec<FieldValue>, Error>(
            Error::InvalidLength,
        ),
        msg.pgn == pgn && msg.length == length ==> r is Ok,
        r matches Ok(vals) ==> vals.len() == fields.len() && forall|i: int|
            0 <= i < fields.len() ==> vals@[i] == field_reading(msg.data@, #[trigger] fields@[i]),
{
    if msg.pgn != pgn {
        return Err(Error::InvalidPgn);
    }
    if msg.length != length {
        return Err(Error::InvalidLength);
    }
    let mut vals: Vec<FieldValue> = Vec::new();
    let mut i: usize = 0;
    while i < fields.len()
        invariant
            i <= fields.len(),
            layout_readable(fields@),
            vals.len() == i,
            forall|k: int| 0 <= k < i ==> vals@[k] == field_reading(msg.data@, #[trigger] fields@[k]),
        decreases fields.len() - i,
    {
        let f = fields[i];
        assert(f.bit_length > 0 ==> f.bit_start + f.bit_length - 1 <= usize::MAX);
        let v = match f.kind {
            RawKind::Unsigned => FieldValue::Unsigned(
                read_field(&msg.data, f.bit_start, f.bit_length),
            ),
            RawKind::Signed => FieldValue::Signed(
                sign_extend_wide(read_field(&msg.data, f.bit_start, f.bit_length), f.bit_length),
            ),
            RawKind::Reserved => FieldValue::Reserved,
        };
        vals.push(v);
        i = i + 1;
    }
    Ok(vals)
}

/// Reading back a frame that `marshall_fields` filled gives, for every field,
/// the value it was written with cut to the field's width (sign-extended for
/// a signed field), and the header checks pass for the same PGN and length.
pub proof fn law_unmarshall_after_marshall(
    data: Seq<u8>,
    fields: Seq<FieldLayout>,
    values: Seq<u32>,
    i: int,
)
    requires
        data.len() == MESSAGE_DATA_LEN,
        fields.len() == values.len(),
        layout_fits(fields),
        layout_disjoint(fields),
        forall|p: int|
            0 <= p < 8 * MESSAGE_DATA_LEN ==> #[trigger] buffer_bit(data, p) == frame_bit(
                fields,
                values,
                p,
            ),
        0 <= i < fields.len(),
    ensures
        field_reading(data, fields[i]) == reading_of_written(fields[i], values[i]),
{
    let f = fields[i];
    let off = f.bit_start as int;
    let len = f.bit_length as int;
    if f.kind != RawKind::Reserved {
        assert(f.bit_length <= 32);
        let m = values[i] & wide_mask(len as nat);
        assert forall|j: int| 0 <= j < 32 implies #[trigger] value_bit(m, j) == (j < len
            && buffer_bit(data, off + j)) by {
            lemma_field_bits(data, fields, values, i, j);
        }
        assert(reads_as(data, off, len, m));
        lemma_field_bits_unique(data, off, len, m);
    }
}

/// Bit `j` of a written field, as read back, is bit `j` of its value cut to
/// the field's width.
proof fn lemma_field_bits(data: Seq<u8>, fields: Seq<FieldLayout>, values: Seq<u32>, i: int, j: int)
    requires
        data.len() == MESSAGE_DATA_LEN,
        fields.len() == values.len(),
        layout_fits(fields),
        layout_disjoint(fields),
        forall|p: int|
            0 <= p < 8 * MESSAGE_DATA_LEN ==> #[trigger] buffer_bit(data, p) == frame_bit(
                fields,
                values,
                p,
            ),
        0 <= i < fields.len(),
        fields[i].kind != RawKind::Reserved,
        0 <= j < 32,
    ensures
        value_bit(values[i] & wide_mask(fields[i].bit_length as nat), j) == (j
            < fields[i].bit_length && buffer_bit(data, fields[i].bit_start + j)),
{
    let f = fields[i];
    let off = f.bit_start as int;
    let len = f.bit_length as int;
    assert(f.bit_length <= 32);
    lemma_wide_mask_bits(values[i], len as u32, j as u32);
    if j < len {
        let p = off + j;
        assert(field_covers(f, p));
        assert(buffer_bit(data, p) == frame_bit(fields, values, p));
        if frame_bit(fields, values, p) {
            let k = choose|k: int|
                0 <= k < fields.len() && fields[k].kind != RawKind::Reserved
                    && #[trigger] field_covers(fields[k], p) && value_bit(
                    values[k],
                    p - fields[k].bit_start,
                );
            if k != i {
                if k < i {
                    assert(fields[k].bit_start + fields[k].bit_length <= fields[i].bit_start
                        || fields[i].bit_start + fields[i].bit_length <= fields[k].bit_start);
                } else {
                    assert(fields[i].bit_start + fields[i].bit_length <= fields[k].bit_start
                        || fields[k].bit_start + fields[k].bit_length <= fields[i].bit_start);
                }
            }
        } else {
            assert(!value_bit(values[i], j));
        }
    }
}

} // verus!
