//! What the message macros know about a field and about an enum used as a
//! field type, and the registry that keeps enum descriptions between uses.

use crate::message::RawKind;
use vstd::hash_map::StringHashMap;
use vstd::prelude::*;
use vstd::string::StringExecFns;

pub use crate::text::format_binary_value;

verus! {

/// How a field's value becomes raw bits.
#[derive(Debug, Clone)]
pub enum Encoding {
    /// An unsigned integer, sent as it is.
    UInt,
    /// A signed integer, sent in two's complement and sign-extended on reading.
    SInt,
    /// A float sent as `(value - offset) / scale`; what the rules need of it
    /// is whether the offset is zero.
    Scaled { offset_is_zero: bool },
    /// A float sent as a Q9 fixed-point number.
    Q9,
    /// An enum sent as its discriminant; holds the enum type as written.
    Enum(String),
    /// Bits that carry nothing.
    Reserved,
}

/// The text that names an encoding in the generated documentation.
pub open spec fn encoding_label_spec(e: Encoding) -> Seq<char> {
    match e {
        Encoding::UInt => "UINT"@,
        Encoding::SInt => "Scaled INT"@,
        Encoding::Scaled { .. } => "Scaled"@,
        Encoding::Q9 => "Q9"@,
        Encoding::Enum(_) => "Enum"@,
        Encoding::Reserved => "Reserved"@,
    }
}

/// How the raw bits of a field with this encoding are read back: a scaled
/// value with an offset is unsigned, one without is signed.
pub open spec fn raw_kind_spec(e: Encoding) -> RawKind {
    match e {
        Encoding::UInt => RawKind::Unsigned,
        Encoding::SInt => RawKind::Signed,
        Encoding::Scaled { offset_is_zero, .. } => if offset_is_zero {
            RawKind::Signed
        } else {
            RawKind::Unsigned
        },
        Encoding::Q9 => RawKind::Signed,
        Encoding::Enum(_) => RawKind::Unsigned,
        Encoding::Reserved => RawKind::Reserved,
    }
}

/// Which encodings are read back signed: signed integers, Q9 values and
/// scaled values without an offset are sign-extended; unsigned integers,
/// enums and scaled values with an offset are read unsigned; reserved bits
/// are not read.
pub proof fn law_raw_kind_by_encoding(e: Encoding)
    ensures
        raw_kind_spec(e) == RawKind::Signed <==> (e is SInt || e is Q9 || e
            == Encoding::Scaled { offset_is_zero: true }),
        raw_kind_spec(e) == RawKind::Unsigned <==> (e is UInt || e is Enum || e
            == Encoding::Scaled { offset_is_zero: false }),
        raw_kind_spec(e) == RawKind::Reserved <==> e is Reserved,
{
}

impl Encoding {
    /// The text that names this encoding in the generated documentation.
    pub fn label(&self) -> (s: String)
        ensures
            s@ == encoding_label_spec(*self),
    {
        match self {
            Encoding::UInt => String::from_str("UINT"),
            Encoding::SInt => String::from_str("Scaled INT"),
            Encoding::Scaled { .. } => String::from_str("Scaled"),
            Encoding::Q9 => String::from_str("Q9"),
            Encoding::Enum(_) => String::from_str("Enum"),
            Encoding::Reserved => String::from_str("Reserved"),
        }
    }

    /// How the raw bits of a field with this encoding are read back.
    pub fn raw_kind(&self) -> (k: RawKind)
        ensures
            k == raw_kind_spec(*self),
    {
        match self {
            Encoding::UInt => RawKind::Unsigned,
            Encoding::SInt => RawKind::Signed,
            Encoding::Scaled { offset_is_zero, .. } => if *offset_is_zero {
                RawKind::Signed
            } else {
                RawKind::Unsigned
            },
            Encoding::Q9 => RawKind::Signed,
            Encoding::Enum(_) => RawKind::Unsigned,
            Encoding::Reserved => RawKind::Reserved,
        }
    }
}


/// A field of a message: its name, bit range, encoding, unit and doc lines.
#[derive(Debug, Clone)]
pub struct FieldInfo {
    pub name: String,
    pub bit_start: usize,
    pub bit_end: usize,
    pub encoding: Encoding,
    pub units: Option<String>,
    pub doc: Vec<String>,
}

impl FieldInfo {
    /// Number of bits the field spans.
    pub fn bit_length(&self) -> (n: usize)
        requires
            self.bit_start <= self.bit_end,
        ensures
            n == self.bit_end - self.bit_start,
    {
        self.bit_end - self.bit_start
    }
}

/// A variant of an enum used as a field type.
#[derive(Debug, Clone)]
pub struct EnumVariant {
    pub name: String,
    pub value: u64,
    pub doc_comments: Vec<String>,
}

/// An enum used as a field type: its name, doc lines and variants.
#[derive(Debug, Clone)]
pub struct EnumInfo {
    pub name: String,
    pub doc_comments: Vec<String>,
    pub variants: Vec<EnumVariant>,
}

/// The contents of an `EnumVariant`.
pub struct VariantModel {
    pub name: Seq<char>,
    pub value: u64,
    pub doc_comments: Seq<Seq<char>>,
}

/// The contents of an `EnumInfo`.
pub struct EnumModel {
    pub name: Seq<char>,
    pub doc_comments: Seq<Seq<char>>,
    pub variants: Seq<VariantModel>,
}

impl View for EnumVariant {
    type V = VariantModel;

    open spec fn view(&self) -> VariantModel {
        VariantModel {
            name: self.name@,
            value: self.value,
            doc_comments: self.doc_comments.deep_view(),
        }
    }
}

impl View for EnumInfo {
    type V = EnumModel;

    open spec fn view(&self) -> EnumModel {
        EnumModel {
            name: self.name@,
            doc_comments: self.doc_comments.deep_view(),
            variants: self.variants@.map_values(|v: EnumVariant| v@),
        }
    }
}

/// A copy of a list of strings.
pub fn copy_strings(v: &Vec<String>) -> (r: Vec<String>)
    ensures
        r.deep_view() == v.deep_view(),
{
    let mut r: Vec<String> = Vec::new();
    let mut i: usize = 0;
    while i < v.len()
        invariant
            i <= v.len(),
            r.len() == i,
            forall|k: int| 0 <= k < i ==> r@[k]@ == v@[k]@,
        decreases v.len() - i,
    {
        r.push(v[i].clone());
        i = i + 1;
    }
    assert(r.deep_view() =~= v.deep_view());
    r
}

/// A copy of an enum variant.
pub fn copy_variant(v: &EnumVariant) -> (r: EnumVariant)
    ensures
        r@ == v@,
{
    EnumVariant {
        name: v.name.clone(),
        value: v.value,
        doc_comments: copy_strings(&v.doc_comments),
    }
}

/// A copy of an enum description.
pub fn copy_enum_info(info: &EnumInfo) -> (r: EnumInfo)
    ensures
        r@ == info@,
{
    let mut variants: Vec<EnumVariant> = Vec::new();
    let mut i: usize = 0;
    while i < info.variants.len()
        invariant
            i <= info.variants.len(),
            variants.len() == i,
            forall|k: int| 0 <= k < i ==> variants@[k]@ == info.variants@[k]@,
        decreases info.variants.len() - i,
    {
        variants.push(copy_variant(&info.variants[i]));
        i = i + 1;
    }
    let r = EnumInfo {
        name: info.name.clone(),
        doc_comments: copy_strings(&info.doc_comments),
        variants,
    };
    assert(r@.variants =~= info@.variants);
    r
}

/// The enums described so far, by name, as `HashMap<String, EnumInfo>`
/// holds them.
pub struct EnumRegistry {
    map: StringHashMap<EnumInfo>,
}

impl View for EnumRegistry {
    type V = Map<Seq<char>, EnumModel>;

    /// Each registered name, mapped to the description registered under it.
    closed spec fn view(&self) -> Map<Seq<char>, EnumModel> {
        self.map@.map_values(|info: EnumInfo| info@)
    }
}

impl EnumRegistry {
    /// A registry with no enum in it.
    pub fn new() -> (r: Self)
        ensures
            r@ == Map::<Seq<char>, EnumModel>::empty(),
    {
        let r = EnumRegistry { map: StringHashMap::new() };
        assert(r@ =~= Map::<Seq<char>, EnumModel>::empty());
        r
    }
}

/// Records `enum_info` under its name, replacing what was recorded under it before.
pub fn register_enum(registry: &mut EnumRegistry, enum_info: EnumInfo)
    ensures
        final(registry)@ == old(registry)@.insert(enum_info@.name, enum_info@),
{
    let ghost model = enum_info@;
    let name = enum_info.name.clone();
    registry.map.insert(name, enum_info);
    proof {
        let expected = old(registry)@.insert(model.name, model);
        assert(registry@.dom() =~= expected.dom());
        assert(registry@ =~= expected);
    }
}

/// The description registered under `enum_name`, if there is one.
pub fn get_enum_info(registry: &EnumRegistry, enum_name: &str) -> (r: Option<EnumInfo>)
    ensures
        r matches Some(info) ==> registry@.dom().contains(enum_name@) && info@
            == registry@[enum_name@],
        r is None ==> !registry@.dom().contains(enum_name@),
{
    match registry.map.get(enum_name) {
        Some(info) => Some(copy_enum_info(info)),
        None => None,
    }
}

/// Reading back a name right after registering it gives what was registered,
/// and registering leaves every other name as it was.
pub proof fn law_registry_read_after_register(
    before: Map<Seq<char>, EnumModel>,
    after: Map<Seq<char>, EnumModel>,
    info: EnumModel,
    other: Seq<char>,
)
    requires
        after == before.insert(info.name, info),
    ensures
        after.dom().contains(info.name),
        after[info.name] == info,
        other != info.name ==> (after.dom().contains(other) <==> before.dom().contains(other)),
        other != info.name && before.dom().contains(other) ==> after[other] == before[other],
{
}

/// The doc line given for an enum that was never registered.
pub open spec fn unregistered_doc(enum_name: Seq<char>) -> Seq<char> {
    "Enum '"@ + enum_name + "' not registered with #[j1939_enum]"@
}

/// The doc lines and variants known for the enum named `name`: those
/// registered under it, or else a note that it was never registered and a
/// single `Unknown` variant of value 0 that says how to register it.
pub open spec fn enum_lookup(registry: Map<Seq<char>, EnumModel>, name: Seq<char>) -> (
    Seq<Seq<char>>,
    Seq<VariantModel>,
) {
    if registry.dom().contains(name) {
        (registry[name].doc_comments, registry[name].variants)
    } else {
        (
            seq![unregistered_doc(name)],
            seq![
                VariantModel {
                    name: "Unknown"@,
                    value: 0,
                    doc_comments: seq!["Use #[j1939_enum] attribute on the enum definition"@],
                },
            ],
        )
    }
}

/// The doc lines and variants of the enum named `enum_name`; for an enum
/// that was never registered, a note saying so and one `Unknown` variant of
/// value 0 that says how to register it.
pub fn extract_enum_variants(registry: &EnumRegistry, enum_name: &str) -> (r: (
    Vec<String>,
    Vec<EnumVariant>,
))
    ensures
        (r.0.deep_view(), r.1@.map_values(|v: EnumVariant| v@)) == enum_lookup(
            registry@,
            enum_name@,
        ),
{
    match get_enum_info(registry, enum_name) {
        Some(info) => (info.doc_comments, info.variants),
        None => {
            let mut note = String::from_str("Enum '");
            note.append(enum_name);
            note.append("' not registered with #[j1939_enum]");
            let mut docs: Vec<String> = Vec::new();
            docs.push(note);
            let mut variant_docs: Vec<String> = Vec::new();
            variant_docs.push(String::from_str("Use #[j1939_enum] attribute on the enum definition"));
            let mut variants: Vec<EnumVariant> = Vec::new();
            variants.push(
                EnumVariant { name: String::from_str("Unknown"), value: 0, doc_comments: variant_docs },
            );
            assert(docs.deep_view() =~= seq![unregistered_doc(enum_name@)]);
            assert(variants@[0].doc_comments.deep_view() =~= seq![
                "Use #[j1939_enum] attribute on the enum definition"@,
            ]);
            assert(variants@.map_values(|v: EnumVariant| v@) =~= enum_lookup(
                registry@,
                enum_name@,
            ).1);
            (docs, variants)
        },
    }
}

/// A variant as declared: its name, its discriminant when that is an integer
/// literal (`None` when there is none, or it is another expression), and its
/// doc lines.
#[derive(Debug)]
pub struct VariantDecl {
    pub name: String,
    pub explicit: Option<u64>,
    pub doc_comments: Vec<String>,
}

/// The literal discriminants of the declared variants.
pub open spec fn discriminants(decls: Seq<VariantDecl>) -> Seq<Option<u64>> {
    decls.map_values(|d: VariantDecl| d.explicit)
}

/// The value of variant `i`: its literal discriminant if it has one, else one
/// more than the variant before it (the first variant counts from 0).
pub open spec fn variant_value(explicit: Seq<Option<u64>>, i: int) -> int
    decreases i + 1,
{
    if i < 0 {
        -1
    } else {
        match explicit[i] {
            Some(v) => v as int,
            None => variant_value(explicit, i - 1) + 1,
        }
    }
}

/// The description of an enum from its declaration, each variant given its value.
pub fn build_enum_info(name: String, doc_comments: Vec<String>, decls: Vec<VariantDecl>) -> (info:
    EnumInfo)
    requires
        forall|i: int|
            0 <= i < decls.len() ==> #[trigger] variant_value(
                discriminants(decls@),
                i,
            ) < u64::MAX,
    ensures
        info.name@ == name@,
        info.doc_comments.deep_view() == doc_comments.deep_view(),
        info.variants.len() == decls.len(),
        forall|i: int|
            0 <= i < decls.len() ==> {
                &&& (#[trigger] info.variants@[i]).name@ == decls@[i].name@
                &&& info.variants@[i].value == variant_value(
                    discriminants(decls@),
                    i,
                )
                &&& info.variants@[i].doc_comments.deep_view() == decls@[i].doc_comments.deep_view()
            },
{
    let ghost explicit = discriminants(decls@);
    let ghost all = decls@;
    let mut variants: Vec<EnumVariant> = Vec::new();
    let mut current_value: u64 = 0;
    let mut rest = decls;
    let mut i: usize = 0;
    let n = rest.len();
    while rest.len() > 0
        invariant
            n == all.len(),
            i + rest.len() == n,
            forall|k: int| 0 <= k < rest.len() ==> rest@[k] == all[i + k],
            explicit == discriminants(all),
            forall|k: int| 0 <= k < n ==> #[trigger] variant_value(explicit, k) < u64::MAX,
            current_value == variant_value(explicit, i - 1) + 1,
            variants.len() == i,
            forall|k: int|
                0 <= k < i ==> {
                    &&& (#[trigger] variants@[k]).name@ == all[k].name@
                    &&& variants@[k].value == variant_value(explicit, k)
                    &&& variants@[k].doc_comments.deep_view() == all[k].doc_comments.deep_view()
                },
        decreases rest.len(),
    {
        let d = rest.remove(0);
        assert(d == all[i as int]);
        assert(explicit[i as int] == d.explicit);
        let value = match d.explicit {
            Some(v) => {
                current_value = v;
                current_value
            },
            None => current_value,
        };
        assert(value == variant_value(explicit, i as int));
        assert(variant_value(explicit, i as int) < u64::MAX);
        variants.push(EnumVariant { name: d.name, value, doc_comments: d.doc_comments });
        current_value = current_value + 1;
        i = i + 1;
    }
    EnumInfo { name, doc_comments, variants }
}

/// Whether every variant value stays below `u64::MAX`, so that counting on
/// from each variant to the next does not overflow.
pub fn variant_values_in_range(decls: &Vec<VariantDecl>) -> (ok: bool)
    ensures
        ok == forall|i: int|
            0 <= i < decls.len() ==> #[trigger] variant_value(discriminants(decls@), i) < u64::MAX,
{
    let ghost explicit = discriminants(decls@);
    let mut current_value: u64 = 0;
    let mut i: usize = 0;
    while i < decls.len()
        invariant
            i <= decls.len(),
            explicit == discriminants(decls@),
            forall|k: int| 0 <= k < i ==> #[trigger] variant_value(explicit, k) < u64::MAX,
            current_value == variant_value(explicit, i - 1) + 1,
        decreases decls.len() - i,
    {
        assert(explicit[i as int] == decls@[i as int].explicit);
        let value = match decls[i].explicit {
            Some(v) => v,
            None => current_value,
        };
        assert(value == variant_value(explicit, i as int));
        if value == u64::MAX {
            return false;
        }
        current_value = value + 1;
        i = i + 1;
    }
    true
}

} // verus!
