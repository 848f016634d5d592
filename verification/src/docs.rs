//! The documentation generated for a message: a Markdown table of the
//! field layout, followed by a section for each enum-typed field that lists
//! the enum's values. The tables are laid out by `tabled`.

use crate::field_info::{
    encoding_label_spec, extract_enum_variants, EnumModel, EnumRegistry,
    EnumVariant, Encoding, FieldInfo, VariantModel,
};
use crate::text::{decimal_text, digits, format_binary_value, zero_padded};
use vstd::prelude::*;
use vstd::string::{StrSliceExecFns, StringExecFns};

verus! {

/// The text that `tabled` lays out for `rows` (the first one the header),
/// in its Markdown style.
pub uninterp spec fn markdown_table(rows: Seq<Seq<Seq<char>>>) -> Seq<char>;

/// Lays `rows` out as a Markdown table with `tabled`: the rows go into a
/// `tabled::builder::Builder` (the first row is the header), the built
/// `Table` gets `Style::markdown()`, and its `to_string()` is returned. The
/// contract claims only that the text depends on the cells alone.
#[verifier::external_body]
fn render_markdown_table(rows: Vec<Vec<String>>) -> (out: String)
    ensures
        out@ == markdown_table(rows.deep_view()),
{
    let mut table = tabled::builder::Builder::from(rows).build();
    table.with(tabled::settings::Style::markdown());
    table.to_string()
}

/// The strings of `parts`, with `sep` between each two.
pub open spec fn joined(parts: Seq<Seq<char>>, sep: Seq<char>) -> Seq<char>
    decreases parts.len(),
{
    if parts.len() == 0 {
        Seq::empty()
    } else if parts.len() == 1 {
        parts[0]
    } else {
        joined(parts.drop_last(), sep) + sep + parts.last()
    }
}

/// The strings of `parts`, with `sep` between each two.
pub fn join(parts: &Vec<String>, sep: &str) -> (s: String)
    ensures
        s@ == joined(parts.deep_view(), sep@),
{
    let mut s = String::new();
    let mut i: usize = 0;
    while i < parts.len()
        invariant
            i <= parts.len(),
            s@ == joined(parts.deep_view().subrange(0, i as int), sep@),
        decreases parts.len() - i,
    {
        let ghost prefix = parts.deep_view().subrange(0, i + 1);
        assert(prefix.drop_last() =~= parts.deep_view().subrange(0, i as int));
        if i > 0 {
            s.append(sep);
        }
        s.append(parts[i].as_str());
        i = i + 1;
    }
    assert(parts.deep_view().subrange(0, parts.len() as int) =~= parts.deep_view());
    s
}

/// The header of the field layout table.
pub open spec fn field_table_header() -> Seq<Seq<char>> {
    seq!["bit_offset"@, "bit_length"@, "description"@, "data_type"@, "units"@]
}

/// The row of the field layout table for a field.
pub open spec fn field_row(f: FieldInfo) -> Seq<Seq<char>> {
    seq![
        digits(f.bit_start as nat, 10),
        digits((f.bit_end - f.bit_start) as nat, 10),
        joined(f.doc.deep_view(), "\n"@),
        encoding_label_spec(f.encoding),
        match f.units {
            Some(u) => u@,
            None => Seq::empty(),
        },
    ]
}

/// The rows of the field layout table, header first.
pub open spec fn field_table_rows(fields: Seq<FieldInfo>) -> Seq<Seq<Seq<char>>> {
    seq![field_table_header()] + fields.map_values(|f: FieldInfo| field_row(f))
}

/// Every field's range starts no later than it ends.
pub open spec fn ranges_ordered(fields: Seq<FieldInfo>) -> bool {
    forall|i: int| 0 <= i < fields.len() ==> #[trigger] fields[i].bit_start <= fields[i].bit_end
}

/// The rows of the field layout table, header first.
pub fn field_table(fields: &Vec<FieldInfo>) -> (rows: Vec<Vec<String>>)
    requires
        ranges_ordered(fields@),
    ensures
        rows.deep_view() == field_table_rows(fields@),
{
    let mut rows: Vec<Vec<String>> = Vec::new();
    let mut header: Vec<String> = Vec::new();
    header.push(String::from_str("bit_offset"));
    header.push(String::from_str("bit_length"));
    header.push(String::from_str("description"));
    header.push(String::from_str("data_type"));
    header.push(String::from_str("units"));
    assert(header.deep_view() =~= field_table_header());
    rows.push(header);
    let mut i: usize = 0;
    while i < fields.len()
        invariant
            i <= fields.len(),
            ranges_ordered(fields@),
            rows.deep_view() == field_table_rows(fields@.subrange(0, i as int)),
        decreases fields.len() - i,
    {
        let f = &fields[i];
        let mut row: Vec<String> = Vec::new();
        row.push(decimal_text(f.bit_start as u64));
        row.push(decimal_text(f.bit_length() as u64));
        row.push(join(&f.doc, "\n"));
        row.push(f.encoding.label());
        row.push(
            match &f.units {
                Some(u) => u.clone(),
                None => String::new(),
            },
        );
        assert(row.deep_view() =~= field_row(*f));
        let ghost before = rows.deep_view();
        rows.push(row);
        proof {
            let mapped = fields@.subrange(0, i + 1).map_values(|g: FieldInfo| field_row(g));
            let mapped0 = fields@.subrange(0, i as int).map_values(|g: FieldInfo| field_row(g));
            assert(mapped =~= mapped0.push(field_row(fields@[i as int])));
            assert(rows.deep_view() =~= before.push(field_row(*f)));
            assert(field_table_rows(fields@.subrange(0, i + 1)) =~= seq![field_table_header()]
                + mapped);
            assert(before =~= seq![field_table_header()] + mapped0);
        }
        i = i + 1;
    }
    assert(fields@.subrange(0, fields.len() as int) =~= fields@);
    rows
}

/// Each non-empty doc line followed by a line break.
pub open spec fn doc_lines_text(lines: Seq<Seq<char>>) -> Seq<char>
    decreases lines.len(),
{
    if lines.len() == 0 {
        Seq::empty()
    } else {
        doc_lines_text(lines.drop_last()) + if lines.last().len() > 0 {
            lines.last() + "\n"@
        } else {
            Seq::empty()
        }
    }
}

/// The header of an enum's value table.
pub open spec fn variant_table_header() -> Seq<Seq<char>> {
    seq!["value"@, "binary"@, "name"@, "description"@]
}

/// The row of an enum's value table for a variant, the binary value padded
/// to the width of the field.
pub open spec fn variant_row(v: VariantModel, bit_width: nat) -> Seq<Seq<char>> {
    seq![
        digits(v.value as nat, 10),
        zero_padded(digits(v.value as nat, 2), bit_width).push('b'),
        v.name,
        joined(v.doc_comments, " "@),
    ]
}

/// The rows of an enum's value table, header first.
pub open spec fn variant_table_rows(variants: Seq<VariantModel>, bit_width: nat) -> Seq<
    Seq<Seq<char>>,
> {
    seq![variant_table_header()] + variants.map_values(|v: VariantModel| variant_row(v, bit_width))
}

/// The section for an enum-typed field: a heading with the enum's name, its
/// doc lines and a blank line when it has any, then its value table.
pub open spec fn enum_section(
    enum_name: Seq<char>,
    docs: Seq<Seq<char>>,
    variants: Seq<VariantModel>,
    bit_width: nat,
) -> Seq<char> {
    "### "@ + enum_name + " Values\n\n"@ + doc_lines_text(docs) + (if docs.len() > 0 {
        "\n"@
    } else {
        Seq::empty()
    }) + markdown_table(variant_table_rows(variants, bit_width))
}

/// Appends each non-empty doc line and a line break after it.
fn append_doc_lines(out: &mut String, lines: &Vec<String>)
    ensures
        final(out)@ == old(out)@ + doc_lines_text(lines.deep_view()),
{
    let mut i: usize = 0;
    while i < lines.len()
        invariant
            i <= lines.len(),
            out@ == old(out)@ + doc_lines_text(lines.deep_view().subrange(0, i as int)),
        decreases lines.len() - i,
    {
        proof {
            reveal_strlit("\n");
            let prefix = lines.deep_view().subrange(0, i + 1);
            assert(prefix.drop_last() =~= lines.deep_view().subrange(0, i as int));
        }
        let ghost before = out@;
        if lines[i].as_str().unicode_len() > 0 {
            out.append(lines[i].as_str());
            out.append("\n");
        }
        proof {
            let prefix = lines.deep_view().subrange(0, i + 1);
            assert(out@ =~= old(out)@ + doc_lines_text(prefix));
        }
        i = i + 1;
    }
    assert(lines.deep_view().subrange(0, lines.len() as int) =~= lines.deep_view());
}

/// The rows of an enum's value table, header first.
fn variant_table(variants: &Vec<EnumVariant>, bit_width: usize) -> (rows: Vec<Vec<String>>)
    ensures
        rows.deep_view() == variant_table_rows(
            variants@.map_values(|v: EnumVariant| v@),
            bit_width as nat,
        ),
{
    let ghost models = variants@.map_values(|v: EnumVariant| v@);
    let mut rows: Vec<Vec<String>> = Vec::new();
    let mut header: Vec<String> = Vec::new();
    header.push(String::from_str("value"));
    header.push(String::from_str("binary"));
    header.push(String::from_str("name"));
    header.push(String::from_str("description"));
    assert(header.deep_view() =~= variant_table_header());
    rows.push(header);
    let mut i: usize = 0;
    while i < variants.len()
        invariant
            i <= variants.len(),
            models == variants@.map_values(|v: EnumVariant| v@),
            rows.deep_view() == variant_table_rows(models.subrange(0, i as int), bit_width as nat),
        decreases variants.len() - i,
    {
        let v = &variants[i];
        let mut row: Vec<String> = Vec::new();
        row.push(decimal_text(v.value));
        row.push(format_binary_value(v.value, bit_width));
        row.push(v.name.clone());
        row.push(join(&v.doc_comments, " "));
        assert(row.deep_view() =~= variant_row(v@, bit_width as nat));
        let ghost before = rows.deep_view();
        rows.push(row);
        proof {
            let mapped = models.subrange(0, i + 1).map_values(
                |m: VariantModel| variant_row(m, bit_width as nat),
            );
            let mapped0 = models.subrange(0, i as int).map_values(
                |m: VariantModel| variant_row(m, bit_width as nat),
            );
            assert(models[i as int] == v@);
            assert(mapped =~= mapped0.push(variant_row(v@, bit_width as nat)));
            assert(rows.deep_view() =~= before.push(variant_row(v@, bit_width as nat)));
        }
        i = i + 1;
    }
    assert(models.subrange(0, variants.len() as int) =~= models);
    rows
}

/// The documentation section for an enum-typed field of `bit_width` bits
/// whose enum is named `enum_name`.
pub fn generate_enum_documentation(registry: &EnumRegistry, enum_name: &str, bit_width: usize) -> (s:
    String)
    ensures
        s@ == enum_section(
            enum_name@,
            enum_lookup_docs(registry@, enum_name@),
            enum_lookup_variants(registry@, enum_name@),
            bit_width as nat,
        ),
{
    proof {
        reveal_strlit("\n");
    }
    let mut output = String::from_str("### ");
    output.append(enum_name);
    output.append(" Values\n\n");
    let (enum_docs, variants) = extract_enum_variants(registry, enum_name);
    append_doc_lines(&mut output, &enum_docs);
    if enum_docs.len() > 0 {
        output.append("\n");
    }
    let table = render_markdown_table(variant_table(&variants, bit_width));
    output.append(table.as_str());
    output
}

/// The doc lines known for the enum named `name`.
pub open spec fn enum_lookup_docs(registry: Map<Seq<char>, EnumModel>, name: Seq<char>) -> Seq<
    Seq<char>,
> {
    crate::field_info::enum_lookup(registry, name).0
}

/// The variants known for the enum named `name`.
pub open spec fn enum_lookup_variants(registry: Map<Seq<char>, EnumModel>, name: Seq<char>) -> Seq<
    VariantModel,
> {
    crate::field_info::enum_lookup(registry, name).1
}

/// The enum sections of the documentation, one for each enum-typed field in
/// field order, each after a blank line.
pub open spec fn enum_sections(fields: Seq<FieldInfo>, registry: Map<Seq<char>, EnumModel>) -> Seq<
    char,
>
    decreases fields.len(),
{
    if fields.len() == 0 {
        Seq::empty()
    } else {
        let f = fields.last();
        enum_sections(fields.drop_last(), registry) + match f.encoding {
            Encoding::Enum(t) => "\n\n"@ + enum_section(
                t@,
                enum_lookup_docs(registry, t@),
                enum_lookup_variants(registry, t@),
                (f.bit_end - f.bit_start) as nat,
            ),
            _ => Seq::empty(),
        }
    }
}

/// The documentation of a message layout: the field layout table, then the
/// enum sections.
pub open spec fn documentation(fields: Seq<FieldInfo>, registry: Map<Seq<char>, EnumModel>) -> Seq<
    char,
> {
    markdown_table(field_table_rows(fields)) + enum_sections(fields, registry)
}

/// The documentation of a message layout: the field layout table, then a
/// section listing the values of each enum-typed field's enum.
pub fn generate_documentation_table(fields: &Vec<FieldInfo>, registry: &EnumRegistry) -> (s: String)
    requires
        ranges_ordered(fields@),
    ensures
        s@ == documentation(fields@, registry@),
{
    proof {
        reveal_strlit("\n\n");
    }
    let mut output = render_markdown_table(field_table(fields));
    let ghost table_text = output@;
    let mut i: usize = 0;
    while i < fields.len()
        invariant
            i <= fields.len(),
            ranges_ordered(fields@),
            output@ == table_text + enum_sections(fields@.subrange(0, i as int), registry@),
        decreases fields.len() - i,
    {
        proof {
            reveal_strlit("\n\n");
            assert(fields@.subrange(0, i + 1).drop_last() =~= fields@.subrange(0, i as int));
        }
        let f = &fields[i];
        match &f.encoding {
            Encoding::Enum(enum_type) => {
                output.append("\n\n");
                let section = generate_enum_documentation(
                    registry,
                    enum_type.as_str(),
                    f.bit_length(),
                );
                output.append(section.as_str());
            },
            _ => {},
        }
        proof {
            assert(fields@.subrange(0, i + 1).last() == *f);
        }
        i = i + 1;
    }
    assert(fields@.subrange(0, fields.len() as int) =~= fields@);
    output
}

/// The documentation gains, for a field added at the end, exactly the
/// section that `generate_enum_documentation` writes for its enum at the
/// field's width `bit_end - bit_start` (after a blank line) when the field is
/// enum-typed, and nothing otherwise.
pub proof fn law_enum_section_at_field_width(
    fields: Seq<FieldInfo>,
    f: FieldInfo,
    registry: Map<Seq<char>, EnumModel>,
)
    ensures
        f.encoding matches Encoding::Enum(t) ==> enum_sections(fields.push(f), registry)
            == enum_sections(fields, registry) + "\n\n"@ + enum_section(
            t@,
            enum_lookup_docs(registry, t@),
            enum_lookup_variants(registry, t@),
            (f.bit_end - f.bit_start) as nat,
        ),
        !(f.encoding is Enum) ==> enum_sections(fields.push(f), registry) == enum_sections(
            fields,
            registry,
        ),
{
    assert(fields.push(f).drop_last() =~= fields);
}

/// Where a field starts does not change the enum sections: two layouts whose
/// fields have, in order, the same encodings and the same widths get the
/// same sections, however their fields are placed.
pub proof fn law_enum_sections_ignore_field_starts(
    a: Seq<FieldInfo>,
    b: Seq<FieldInfo>,
    registry: Map<Seq<char>, EnumModel>,
)
    requires
        a.len() == b.len(),
        forall|i: int|
            0 <= i < a.len() ==> (#[trigger] a[i]).encoding == b[i].encoding && a[i].bit_end
                - a[i].bit_start == b[i].bit_end - b[i].bit_start,
    ensures
        enum_sections(a, registry) == enum_sections(b, registry),
    decreases a.len(),
{
    if a.len() > 0 {
        let a0 = a.drop_last();
        let b0 = b.drop_last();
        assert forall|i: int| 0 <= i < a0.len() implies (#[trigger] a0[i]).encoding
            == b0[i].encoding && a0[i].bit_end - a0[i].bit_start == b0[i].bit_end
            - b0[i].bit_start by {
            assert(a0[i] == a[i]);
            assert(b0[i] == b[i]);
        }
        law_enum_sections_ignore_field_starts(a0, b0, registry);
        assert(a.last() == a[a.len() - 1]);
    }
}

} // verus!
