//! The decisions taken while reading message attributes and laying out
//! fields, enums and documentation.

use j1939::codegen::{combine_struct_docs, field_layouts};
use j1939::docs::{generate_documentation_table, generate_enum_documentation, join};
use j1939::field_info::{
    build_enum_info, extract_enum_variants, get_enum_info, register_enum, variant_values_in_range,
    Encoding, EnumInfo, EnumRegistry, FieldInfo, VariantDecl,
};
use j1939::message::{FieldLayout, RawKind};
use j1939::parse::{
    attr_key, field_attr_key, resolve_field_attr, AttrError, AttrKey, AttrSetting, AttrState,
    FieldAttrError, FieldAttrKey, MessageAttributes, Scaling,
};
use j1939::text::{decimal_text, format_binary_value, lines, str_eq};
use j1939::validate::{validate_bit_coverage, validate_fields, LayoutError};

fn strings(v: &[&str]) -> Vec<String> {
    v.iter().map(|s| s.to_string()).collect()
}

fn field(name: &str, start: usize, end: usize, encoding: Encoding) -> FieldInfo {
    FieldInfo {
        name: name.to_string(),
        bit_start: start,
        bit_end: end,
        encoding,
        units: None,
        doc: Vec::new(),
    }
}

#[test]
fn binary_values_are_padded_to_the_field_width() {
    assert_eq!(format_binary_value(3, 4), "0011b");
    assert_eq!(format_binary_value(0, 3), "000b");
    assert_eq!(format_binary_value(0, 0), "0b");
    assert_eq!(format_binary_value(5, 2), "101b");
    assert_eq!(format_binary_value(u64::MAX, 0), format!("{:b}b", u64::MAX));
}

#[test]
fn decimal_text_matches_display() {
    for v in [0u64, 7, 10, 123, 61444, u64::MAX] {
        assert_eq!(decimal_text(v), v.to_string());
    }
}

#[test]
fn text_search_and_equality() {
    assert!(str_eq("pgn", "pgn"));
    assert!(!str_eq("pgn", "pg"));
    assert!(str_eq("", ""));
    assert!(!str_eq("u16", "u1"));
}

#[test]
fn lines_split_like_str_lines() {
    for s in ["", "a", "a\n", "a\nb", "a\r\nb\r\n", "\n\nx", "a\r", "| a |\n|---|\n| 1 |"] {
        let expected: Vec<String> = s.lines().map(|l| l.to_string()).collect();
        assert_eq!(lines(s), expected, "for {:?}", s);
    }
}

#[test]
fn join_puts_separator_between_parts() {
    assert_eq!(join(&strings(&[]), " - "), "");
    assert_eq!(join(&strings(&["a"]), " - "), "a");
    assert_eq!(join(&strings(&["a", "b", "c"]), " - "), "a - b - c");
}

#[test]
fn message_attributes_defaults_and_limits() {
    assert_eq!(attr_key("pgn"), Some(AttrKey::Pgn));
    assert_eq!(attr_key("priority"), Some(AttrKey::Priority));
    assert_eq!(attr_key("length"), Some(AttrKey::Length));
    assert_eq!(attr_key("size"), None);

    let state = AttrState::new();
    assert_eq!(state.finish(), Err(AttrError::MissingPgn));

    let mut state = AttrState::new();
    assert_eq!(state.apply(AttrSetting::Pgn(61444)), Ok(()));
    assert_eq!(
        state.finish(),
        Ok(MessageAttributes { pgn: 61444, priority: 6, length: 64 })
    );
    assert_eq!(state.apply(AttrSetting::Priority(3)), Ok(()));
    assert_eq!(state.apply(AttrSetting::Priority(8)), Err(AttrError::PriorityOutOfRange));
    assert_eq!(state.apply(AttrSetting::Pgn(262_144)), Err(AttrError::PgnOutOfRange));
    assert_eq!(state.apply(AttrSetting::Pgn(300_000)), Err(AttrError::PgnOutOfRange));
    assert_eq!(state.apply(AttrSetting::Length(224)), Err(AttrError::LengthTooLarge));
    assert_eq!(state.apply(AttrSetting::Length(223)), Ok(()));
    assert_eq!(
        state.finish(),
        Ok(MessageAttributes { pgn: 61444, priority: 3, length: 223 })
    );
}

#[test]
fn pgn_and_priority_ranges_are_inclusive() {
    let mut state = AttrState::new();
    assert_eq!(state.apply(AttrSetting::Pgn(262_143)), Ok(()));
    assert_eq!(state.apply(AttrSetting::Priority(7)), Ok(()));
    assert_eq!(state.apply(AttrSetting::Priority(0)), Ok(()));
    assert_eq!(state.apply(AttrSetting::Priority(9)), Err(AttrError::PriorityOutOfRange));
    // A refused value leaves what was set before.
    assert_eq!(
        state.finish(),
        Ok(MessageAttributes { pgn: 262_143, priority: 0, length: 64 })
    );
    let mut state = AttrState::new();
    assert_eq!(state.apply(AttrSetting::Pgn(300_000)), Err(AttrError::PgnOutOfRange));
    assert_eq!(state.finish(), Err(AttrError::MissingPgn));
}

fn scaling(offset_is_zero: bool) -> Option<Scaling> {
    Some(Scaling { offset_is_zero })
}

#[test]
fn field_encoding_is_chosen_in_order() {
    assert!(matches!(
        resolve_field_attr(None, Some(8), false, None, None, "u8"),
        Err(FieldAttrError::MissingBitsStart)
    ));
    assert!(matches!(
        resolve_field_attr(Some(0), None, false, None, None, "u8"),
        Err(FieldAttrError::MissingBitsEnd)
    ));
    assert!(matches!(
        resolve_field_attr(Some(0), Some(8), true, Some("q9".to_string()), None, "f32"),
        Ok((0, 8, Encoding::Reserved))
    ));
    assert!(matches!(
        resolve_field_attr(Some(0), Some(10), false, Some("q9".to_string()), None, "f32"),
        Ok((0, 10, Encoding::Q9))
    ));
    match resolve_field_attr(Some(0), Some(10), false, Some("q15".to_string()), None, "f32") {
        Err(FieldAttrError::UnknownEncoding(name)) => assert_eq!(name, "q15"),
        _ => panic!("expected an unknown encoding"),
    }
    match resolve_field_attr(Some(0), Some(16), false, None, scaling(false), "f32") {
        Ok((0, 16, Encoding::Scaled { offset_is_zero })) => assert!(!offset_is_zero),
        _ => panic!("expected a scaled field"),
    }
    match resolve_field_attr(Some(0), Some(16), false, None, scaling(true), "f32") {
        Ok((0, 16, Encoding::Scaled { offset_is_zero })) => assert!(offset_is_zero),
        _ => panic!("expected a scaled field"),
    }
    assert!(matches!(
        resolve_field_attr(Some(0), Some(16), false, None, None, "f32"),
        Err(FieldAttrError::FloatWithoutScale)
    ));
    assert!(matches!(
        resolve_field_attr(Some(0), Some(16), false, None, None, "i16"),
        Ok((0, 16, Encoding::SInt))
    ));
    assert!(matches!(
        resolve_field_attr(Some(0), Some(16), false, None, None, "u16"),
        Ok((0, 16, Encoding::UInt))
    ));
    // Only the whole type names of the primitive types decide; a user enum
    // whose name merely contains one is still an enum.
    match resolve_field_attr(Some(0), Some(2), false, None, None, "Multi8Mode") {
        Ok((0, 2, Encoding::Enum(t))) => assert_eq!(t, "Multi8Mode"),
        _ => panic!("expected an enum"),
    }
    match resolve_field_attr(Some(0), Some(2), false, None, None, "Buff32Mode") {
        Ok((0, 2, Encoding::Enum(t))) => assert_eq!(t, "Buff32Mode"),
        _ => panic!("expected an enum"),
    }
    match resolve_field_attr(Some(0), Some(3), false, None, None, "GearPosition") {
        Ok((0, 3, Encoding::Enum(t))) => assert_eq!(t, "GearPosition"),
        _ => panic!("expected an enum"),
    }
}

#[test]
fn encoding_labels_and_raw_kinds() {
    assert_eq!(Encoding::UInt.label(), "UINT");
    assert_eq!(Encoding::SInt.label(), "Scaled INT");
    assert_eq!(Encoding::Q9.label(), "Q9");
    assert_eq!(Encoding::Enum("X".to_string()).label(), "Enum");
    assert_eq!(Encoding::Reserved.label(), "Reserved");
    let with_offset = Encoding::Scaled { offset_is_zero: false };
    assert_eq!(with_offset.label(), "Scaled");
    assert_eq!(with_offset.raw_kind(), RawKind::Unsigned);
    let without = Encoding::Scaled { offset_is_zero: true };
    assert_eq!(without.label(), "Scaled");
    assert_eq!(without.raw_kind(), RawKind::Signed);
    assert_eq!(Encoding::Q9.raw_kind(), RawKind::Signed);
    assert_eq!(Encoding::Enum("X".to_string()).raw_kind(), RawKind::Unsigned);
    assert_eq!(Encoding::Reserved.raw_kind(), RawKind::Reserved);
}

#[test]
fn overlapping_fields_are_refused() {
    let fields = vec![field("value1", 0, 8, Encoding::UInt), field("value2", 4, 12, Encoding::UInt)];
    let mut attrs = MessageAttributes { pgn: 12345, priority: 6, length: 64 };
    assert_eq!(
        validate_fields(&fields, &mut attrs),
        Err(LayoutError::Overlap { field: 1, other: 0 })
    );
    assert_eq!(attrs.length, 64);
}

#[test]
fn gaps_are_refused_with_their_ranges() {
    let fields = vec![field("value1", 0, 8, Encoding::UInt), field("value2", 16, 24, Encoding::UInt)];
    let mut attrs = MessageAttributes { pgn: 12345, priority: 6, length: 64 };
    assert_eq!(
        validate_fields(&fields, &mut attrs),
        Err(LayoutError::UncoveredBits(vec![(8, 16), (24, 64)]))
    );
}

#[test]
fn a_full_layout_passes_in_any_field_order() {
    let fields = vec![
        field("reserved", 24, 64, Encoding::Reserved),
        field("temp", 16, 24, Encoding::UInt),
        field("speed", 0, 16, Encoding::UInt),
    ];
    let mut attrs = MessageAttributes { pgn: 61444, priority: 3, length: 64 };
    assert_eq!(validate_fields(&fields, &mut attrs), Ok(()));
    assert_eq!(attrs, MessageAttributes { pgn: 61444, priority: 3, length: 64 });
}

#[test]
fn default_length_grows_to_the_fields() {
    let fields = vec![field("a", 0, 100, Encoding::UInt)];
    let mut attrs = MessageAttributes { pgn: 1, priority: 6, length: 64 };
    assert_eq!(validate_fields(&fields, &mut attrs), Ok(()));
    assert_eq!(attrs.length, 100);
    // An explicit length does not grow.
    let mut attrs = MessageAttributes { pgn: 1, priority: 6, length: 80 };
    assert_eq!(
        validate_fields(&fields, &mut attrs),
        Err(LayoutError::BeyondLength { field: 0, length: 80 })
    );
}

#[test]
fn same_start_fields_keep_their_order_in_the_coverage_walk() {
    // An empty field at 5 listed after 5..8 moves the walk back to 5.
    let fields = vec![
        field("a", 0, 5, Encoding::UInt),
        field("b", 5, 8, Encoding::UInt),
        field("c", 5, 5, Encoding::UInt),
    ];
    assert_eq!(validate_bit_coverage(&fields, 8), Err(LayoutError::UncoveredBits(vec![(5, 8)])));
    let fields = vec![
        field("a", 0, 5, Encoding::UInt),
        field("c", 5, 5, Encoding::UInt),
        field("b", 5, 8, Encoding::UInt),
    ];
    assert_eq!(validate_bit_coverage(&fields, 8), Ok(()));
}

#[test]
fn field_layouts_follow_the_encodings() {
    let fields = vec![
        field("a", 0, 3, Encoding::Enum("Gear".to_string())),
        field("b", 3, 13, Encoding::Q9),
        field("c", 13, 64, Encoding::Reserved),
    ];
    assert_eq!(
        field_layouts(&fields),
        vec![
            FieldLayout { bit_start: 0, bit_length: 3, kind: RawKind::Unsigned },
            FieldLayout { bit_start: 3, bit_length: 10, kind: RawKind::Signed },
            FieldLayout { bit_start: 13, bit_length: 51, kind: RawKind::Reserved },
        ]
    );
    assert_eq!(fields[1].bit_length(), 10);
}

fn decl(name: &str, explicit: Option<u64>) -> VariantDecl {
    VariantDecl { name: name.to_string(), explicit, doc_comments: strings(&[name]) }
}

#[test]
fn enum_values_count_on_from_the_last_discriminant() {
    let decls = vec![decl("Off", None), decl("Starting", None), decl("Fault", Some(7)), decl("Next", None)];
    assert!(variant_values_in_range(&decls));
    let info = build_enum_info("EngineStatus".to_string(), strings(&["Status"]), decls);
    let values: Vec<u64> = info.variants.iter().map(|v| v.value).collect();
    assert_eq!(values, vec![0, 1, 7, 8]);
    assert_eq!(info.variants[2].name, "Fault");
    assert!(!variant_values_in_range(&vec![decl("Max", Some(u64::MAX))]));
}

fn gear_info() -> EnumInfo {
    build_enum_info(
        "GearPosition".to_string(),
        strings(&["Gear selection", ""]),
        vec![decl("Park", None), decl("Drive", Some(3))],
    )
}

#[test]
fn registry_reads_back_what_was_registered() {
    let mut registry = EnumRegistry::new();
    assert!(get_enum_info(&registry, "GearPosition").is_none());
    register_enum(&mut registry, gear_info());
    let got = get_enum_info(&registry, "GearPosition").unwrap();
    assert_eq!(got.name, "GearPosition");
    assert_eq!(got.variants.len(), 2);
    // Registering again under the same name replaces the entry.
    register_enum(
        &mut registry,
        build_enum_info("GearPosition".to_string(), Vec::new(), vec![decl("Low", None)]),
    );
    let got = get_enum_info(&registry, "GearPosition").unwrap();
    assert_eq!(got.variants.len(), 1);
    assert_eq!(got.variants[0].name, "Low");
    assert!(get_enum_info(&registry, "Other").is_none());
}

#[test]
fn unregistered_enums_get_a_note() {
    let registry = EnumRegistry::new();
    let (docs, variants) = extract_enum_variants(&registry, "Mystery");
    assert_eq!(docs, strings(&["Enum 'Mystery' not registered with #[j1939_enum]"]));
    assert_eq!(variants.len(), 1);
    assert_eq!(variants[0].name, "Unknown");
    assert_eq!(variants[0].value, 0);
    assert_eq!(
        variants[0].doc_comments,
        strings(&["Use #[j1939_enum] attribute on the enum definition"])
    );
}

#[test]
fn documentation_has_a_layout_table_and_enum_sections() {
    let mut registry = EnumRegistry::new();
    register_enum(&mut registry, gear_info());
    let mut speed = field(
        "speed",
        3,
        19,
        Encoding::Scaled { offset_is_zero: true },
    );
    speed.units = Some("rpm".to_string());
    speed.doc = strings(&["Engine speed", "measured"]);
    let fields = vec![
        field("gear", 0, 3, Encoding::Enum("GearPosition".to_string())),
        speed,
        field("reserved", 19, 64, Encoding::Reserved),
    ];
    let doc = generate_documentation_table(&fields, &registry);
    let first_lines: Vec<&str> = doc.lines().take(3).collect();
    assert_eq!(
        first_lines,
        vec![
            "| bit_offset | bit_length | description  | data_type | units |",
            "|------------|------------|--------------|-----------|-------|",
            "| 0          | 3          |              | Enum      |       |",
        ]
    );
    // The two doc lines of a field are two lines of one description cell.
    assert!(doc.contains(
        "| 3          | 16         | Engine speed | Scaled    | rpm   |\n|            |            | measured     |           |       |\n"
    ));
    assert!(doc.contains("| 19         | 45         |              | Reserved  |       |"));
    assert!(doc.contains("\n\n### GearPosition Values\n\nGear selection\n\n| value | binary | name  | description |"));
    assert!(doc.contains("| 3     | 011b   | Drive | Drive       |"));
    let section = generate_enum_documentation(&registry, "GearPosition", 3);
    assert!(doc.ends_with(&section));
}

#[test]
fn struct_docs_get_the_layout_appended() {
    let docs = combine_struct_docs(strings(&["Engine data"]), true, "| a |\n|---|\n| 1 |");
    assert_eq!(docs, strings(&["Engine data", "", "## Field Layout", "", "| a |", "|---|", "| 1 |"]));
    let docs = combine_struct_docs(Vec::new(), true, "| a |");
    assert_eq!(docs, strings(&["## Field Layout", "", "| a |"]));
    let docs = combine_struct_docs(strings(&["Only docs"]), false, "| a |");
    assert_eq!(docs, strings(&["Only docs"]));
}

#[test]
fn field_attribute_keys() {
    assert_eq!(field_attr_key("bits"), Some(FieldAttrKey::Bits));
    assert_eq!(field_attr_key("scale"), Some(FieldAttrKey::Scale));
    assert_eq!(field_attr_key("offset"), Some(FieldAttrKey::Offset));
    assert_eq!(field_attr_key("encoding"), Some(FieldAttrKey::Encoding));
    assert_eq!(field_attr_key("unit"), Some(FieldAttrKey::Unit));
    assert_eq!(field_attr_key("reserved"), Some(FieldAttrKey::Reserved));
    assert_eq!(field_attr_key("units"), None);
    assert_eq!(field_attr_key("Bits"), None);
}
