//! What the message macro works out before it writes code: the doc lines of
//! the generated struct, and the runtime layout of its fields.

use crate::field_info::{raw_kind_spec, Encoding, FieldInfo};
use crate::message::{FieldValue, RawKind};
use vstd::arithmetic::power2::pow2;
use crate::message::FieldLayout;
use crate::text::{lines, split_lines};
use vstd::prelude::*;
use vstd::string::StringExecFns;

verus! {

/// The doc lines of the generated struct: the struct's own doc lines, then,
/// when it has fields, a blank line (if there were doc lines), a `## Field
/// Layout` heading, a blank line and the lines of the layout table.
pub open spec fn combined_docs(original: Seq<Seq<char>>, has_fields: bool, table: Seq<char>) -> Seq<
    Seq<char>,
> {
    if !has_fields {
        original
    } else {
        (if original.len() > 0 {
            original.push(Seq::empty())
        } else {
            original
        }) + seq!["## Field Layout"@, Seq::empty()] + split_lines(table)
    }
}

/// The doc lines of the generated struct.
pub fn combine_struct_docs(original_docs: Vec<String>, has_fields: bool, field_table: &str) -> (r:
    Vec<String>)
    ensures
        r.deep_view() == combined_docs(original_docs.deep_view(), has_fields, field_table@),
{
    let ghost original = original_docs.deep_view();
    let mut docs = original_docs;
    if has_fields {
        if docs.len() > 0 {
            docs.push(String::new());
        }
        docs.push(String::from_str("## Field Layout"));
        docs.push(String::new());
        let ghost head = docs.deep_view();
        let table_lines = lines(field_table);
        let mut i: usize = 0;
        while i < table_lines.len()
            invariant
                i <= table_lines.len(),
                docs.deep_view() == head + table_lines.deep_view().subrange(0, i as int),
            decreases table_lines.len() - i,
        {
            let ghost before = docs.deep_view();
            docs.push(table_lines[i].clone());
            assert(docs.deep_view() =~= before.push(table_lines.deep_view()[i as int]));
            i = i + 1;
            assert(docs.deep_view() =~= head + table_lines.deep_view().subrange(0, i as int));
        }
        assert(table_lines.deep_view().subrange(0, table_lines.len() as int)
            =~= table_lines.deep_view());
        assert(docs.deep_view() =~= combined_docs(original, has_fields, field_table@));
    } else {
        assert(docs.deep_view() =~= original);
    }
    docs
}

/// Where each field lies in the payload and how its raw bits are read back.
pub open spec fn layout_of(fields: Seq<FieldInfo>) -> Seq<FieldLayout> {
    fields.map_values(
        |f: FieldInfo|
            FieldLayout {
                bit_start: f.bit_start,
                bit_length: (f.bit_end - f.bit_start) as usize,
                kind: raw_kind_spec(f.encoding),
            },
    )
}

/// The runtime layout of the fields: start, width and how each is read back.
pub fn field_layouts(fields: &Vec<FieldInfo>) -> (r: Vec<FieldLayout>)
    requires
        forall|i: int|
            0 <= i < fields.len() ==> #[trigger] fields@[i].bit_start <= fields@[i].bit_end,
    ensures
        r@ == layout_of(fields@),
{
    let mut r: Vec<FieldLayout> = Vec::new();
    let mut i: usize = 0;
    while i < fields.len()
        invariant
            i <= fields.len(),
            forall|k: int|
                0 <= k < fields.len() ==> #[trigger] fields@[k].bit_start <= fields@[k].bit_end,
            r@ == layout_of(fields@.subrange(0, i as int)),
        decreases fields.len() - i,
    {
        let f = &fields[i];
        r.push(FieldLayout { bit_start: f.bit_start, bit_length: f.bit_length(), kind: f.encoding.raw_kind() });
        i = i + 1;
        assert(r@ =~= layout_of(fields@.subrange(0, i as int)));
    }
    assert(fields@.subrange(0, fields.len() as int) =~= fields@);
    r
}

/// The fields of a layout that `validate_fields` accepts share no bit, so the
/// runtime layout meets what `marshall_fields` asks of it.
pub proof fn law_accepted_layout_is_disjoint(fields: Seq<FieldInfo>)
    requires
        crate::validate::no_overlap_before(fields, fields.len() as int, 0),
        crate::docs::ranges_ordered(fields),
    ensures
        crate::message::layout_disjoint(layout_of(fields)),
{
    let layout = layout_of(fields);
    assert forall|i: int, j: int| 0 <= i < j < layout.len() implies #[trigger] layout[i].bit_start
        + layout[i].bit_length <= #[trigger] layout[j].bit_start || layout[j].bit_start
        + layout[j].bit_length <= layout[i].bit_start by {
        assert(fields[i].bit_start <= fields[i].bit_end);
        assert(fields[j].bit_start <= fields[j].bit_end);
        assert(!crate::validate::ranges_overlap(fields[i], fields[j]));
    }
}

/// For a layout that `validate_fields` accepts, whose written fields are at
/// most 32 bits wide and lie in the payload: every field of a frame filled by
/// `marshall_fields` reads back as the value it was written with, cut to the
/// field's width and sign-extended for a signed field.
pub proof fn law_accepted_layout_roundtrip(
    fields: Seq<FieldInfo>,
    values: Seq<u32>,
    data: Seq<u8>,
    i: int,
)
    requires
        crate::validate::no_overlap_before(fields, fields.len() as int, 0),
        crate::docs::ranges_ordered(fields),
        crate::message::layout_fits(layout_of(fields)),
        values.len() == fields.len(),
        data.len() == crate::message::MESSAGE_DATA_LEN,
        forall|p: int|
            0 <= p < 8 * crate::message::MESSAGE_DATA_LEN ==> #[trigger] crate::bitfield::buffer_bit(
                data,
                p,
            ) == crate::message::frame_bit(layout_of(fields), values, p),
        0 <= i < fields.len(),
    ensures
        crate::message::field_reading(data, layout_of(fields)[i])
            == crate::message::reading_of_written(layout_of(fields)[i], values[i]),
{
    law_accepted_layout_is_disjoint(fields);
    crate::message::law_unmarshall_after_marshall(data, layout_of(fields), values, i);
}

/// In the runtime layout, a field is read back signed exactly when it is a
/// signed integer, a Q9 value or a scaled value without an offset, and
/// unsigned exactly when it is an unsigned integer, an enum or a scaled
/// value with an offset; its start and width are those of its bit range.
pub proof fn law_layout_reads_signed_fields_signed(fields: Seq<FieldInfo>, i: int)
    requires
        0 <= i < fields.len(),
        fields[i].bit_start <= fields[i].bit_end,
    ensures
        layout_of(fields)[i].bit_start == fields[i].bit_start,
        layout_of(fields)[i].bit_length == fields[i].bit_end - fields[i].bit_start,
        layout_of(fields)[i].kind == RawKind::Signed <==> (fields[i].encoding is SInt
            || fields[i].encoding is Q9 || fields[i].encoding == Encoding::Scaled {
            offset_is_zero: true,
        }),
        layout_of(fields)[i].kind == RawKind::Unsigned <==> (fields[i].encoding is UInt
            || fields[i].encoding is Enum || fields[i].encoding == Encoding::Scaled {
            offset_is_zero: false,
        }),
{
    crate::field_info::law_raw_kind_by_encoding(fields[i].encoding);
}

/// For a layout that `validate_fields` accepts and whose written fields lie
/// in the payload: a signed-integer field of 1 to 32 bits written with a
/// value that fits its width reads back as exactly that value.
pub proof fn law_signed_field_reads_back_its_value(
    fields: Seq<FieldInfo>,
    values: Seq<u32>,
    data: Seq<u8>,
    i: int,
    value: i32,
)
    requires
        crate::validate::no_overlap_before(fields, fields.len() as int, 0),
        crate::docs::ranges_ordered(fields),
        crate::message::layout_fits(layout_of(fields)),
        values.len() == fields.len(),
        data.len() == crate::message::MESSAGE_DATA_LEN,
        forall|p: int|
            0 <= p < 8 * crate::message::MESSAGE_DATA_LEN ==> #[trigger] crate::bitfield::buffer_bit(
                data,
                p,
            ) == crate::message::frame_bit(layout_of(fields), values, p),
        0 <= i < fields.len(),
        fields[i].encoding is SInt,
        1 <= fields[i].bit_end - fields[i].bit_start <= 32,
        -pow2((fields[i].bit_end - fields[i].bit_start - 1) as nat) <= value < pow2(
            (fields[i].bit_end - fields[i].bit_start - 1) as nat,
        ),
        values[i] == value as u32,
    ensures
        crate::message::field_reading(data, layout_of(fields)[i]) == FieldValue::Signed(value),
{
    law_accepted_layout_roundtrip(fields, values, data, i);
    law_layout_reads_signed_fields_signed(fields, i);
    let n = (fields[i].bit_end - fields[i].bit_start) as nat;
    crate::wide_field::law_sign_extend_wide_after_truncation(value, n);
}

} // verus!
