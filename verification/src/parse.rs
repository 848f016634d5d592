//! The decisions made while reading the message and field attributes:
//! which setting a key names, the defaults and limits of the message
//! attributes, and which encoding a field gets.

use crate::field_info::Encoding;
use crate::text::str_eq;
use vstd::prelude::*;
use vstd::string::StringExecFns;

verus! {

/// Longest message, in bits, that an explicit `length` may ask for.
pub const MAX_MESSAGE_LENGTH: u8 = 223;

/// Largest parameter group number (18 bits).
pub const MAX_PGN: u32 = 262143;

/// Lowest priority; 0 is the highest.
pub const MAX_PRIORITY: u8 = 7;

/// Message length, in bits, when none is given.
pub const DEFAULT_MESSAGE_LENGTH: u8 = 64;

/// Message priority when none is given.
pub const DEFAULT_PRIORITY: u8 = 6;

/// The attributes of a message: parameter group number, priority and length in bits.
#[derive(Debug, Clone, Copy, PartialEq, Eq, Structural)]
pub struct MessageAttributes {
    pub pgn: u32,
    pub priority: u8,
    pub length: u8,
}

/// A key of the message attribute list.
#[derive(Debug, Clone, Copy, PartialEq, Eq, Structural)]
pub enum AttrKey {
    Pgn,
    Priority,
    Length,
}

/// One `key = value` item of the message attribute list, its value read as
/// the type the key takes.
#[derive(Debug, Clone, Copy, PartialEq, Eq, Structural)]
pub enum AttrSetting {
    Pgn(u32),
    Priority(u8),
    Length(u8),
}

/// Why a message attribute list is refused.
#[derive(Debug, Clone, Copy, PartialEq, Eq, Structural)]
pub enum AttrError {
    /// A key other than `pgn`, `priority` or `length`.
    UnknownAttribute,
    /// A length above 223 bits.
    LengthTooLarge,
    /// A parameter group number above 262143.
    PgnOutOfRange,
    /// A priority above 7.
    PriorityOutOfRange,
    /// No `pgn` was given.
    MissingPgn,
}

/// The key that an identifier names, if any.
pub fn attr_key(ident: &str) -> (k: Option<AttrKey>)
    ensures
        k == (if ident@ == "pgn"@ {
            Some(AttrKey::Pgn)
        } else if ident@ == "priority"@ {
            Some(AttrKey::Priority)
        } else if ident@ == "length"@ {
            Some(AttrKey::Length)
        } else {
            None
        }),
{
    if str_eq(ident, "pgn") {
        Some(AttrKey::Pgn)
    } else if str_eq(ident, "priority") {
        Some(AttrKey::Priority)
    } else if str_eq(ident, "length") {
        Some(AttrKey::Length)
    } else {
        None
    }
}

/// The message attributes read so far.
#[derive(Debug, Clone, Copy, PartialEq, Eq, Structural)]
pub struct AttrState {
    pub pgn: Option<u32>,
    pub priority: u8,
    pub length: u8,
}

impl AttrState {
    /// No item read yet: no PGN, the default priority and length.
    pub fn new() -> (s: Self)
        ensures
            s.pgn is None,
            s.priority == DEFAULT_PRIORITY,
            s.length == DEFAULT_MESSAGE_LENGTH,
    {
        AttrState { pgn: None, priority: DEFAULT_PRIORITY, length: DEFAULT_MESSAGE_LENGTH }
    }

    /// Takes one item; a later item for the same key overrides an earlier
    /// one. A PGN above 262143, a priority above 7 or a length above 223
    /// bits is refused and changes nothing.
    pub fn apply(&mut self, setting: AttrSetting) -> (r: Result<(), AttrError>)
        ensures
            match setting {
                AttrSetting::Pgn(v) => if v > MAX_PGN {
                    r == Err::<(), AttrError>(AttrError::PgnOutOfRange) && *final(self) == *old(
                        self,
                    )
                } else {
                    r is Ok && *final(self) == AttrState { pgn: Some(v), ..*old(self) }
                },
                AttrSetting::Priority(v) => if v > MAX_PRIORITY {
                    r == Err::<(), AttrError>(AttrError::PriorityOutOfRange) && *final(self)
                        == *old(self)
                } else {
                    r is Ok && *final(self) == AttrState { priority: v, ..*old(self) }
                },
                AttrSetting::Length(v) => if v > MAX_MESSAGE_LENGTH {
                    r == Err::<(), AttrError>(AttrError::LengthTooLarge) && *final(self) == *old(
                        self,
                    )
                } else {
                    r is Ok && *final(self) == AttrState { length: v, ..*old(self) }
                },
            },
    {
        match setting {
            AttrSetting::Pgn(v) => {
                if v > MAX_PGN {
                    return Err(AttrError::PgnOutOfRange);
                }
                self.pgn = Some(v);
                Ok(())
            },
            AttrSetting::Priority(v) => {
                if v > MAX_PRIORITY {
                    return Err(AttrError::PriorityOutOfRange);
                }
                self.priority = v;
                Ok(())
            },
            AttrSetting::Length(v) => {
                if v > MAX_MESSAGE_LENGTH {
                    return Err(AttrError::LengthTooLarge);
                }
                self.length = v;
                Ok(())
            },
        }
    }

    /// The message attributes, once a PGN has been given.
    pub fn finish(&self) -> (r: Result<MessageAttributes, AttrError>)
        ensures
            match self.pgn {
                Some(p) => r == Ok::<MessageAttributes, AttrError>(
                    MessageAttributes { pgn: p, priority: self.priority, length: self.length },
                ),
                None => r == Err::<MessageAttributes, AttrError>(AttrError::MissingPgn),
            },
    {
        match self.pgn {
            Some(p) => Ok(MessageAttributes { pgn: p, priority: self.priority, length: self.length }),
            None => Err(AttrError::MissingPgn),
        }
    }
}

/// A key of a field's `#[j1939(..)]` attribute.
#[derive(Debug, Clone, Copy, PartialEq, Eq, Structural)]
pub enum FieldAttrKey {
    /// `bits = start..end`
    Bits,
    /// `scale = <float>`
    Scale,
    /// `offset = <float>`
    Offset,
    /// `encoding = "<name>"`
    Encoding,
    /// `unit = "<text>"`
    Unit,
    /// `reserved`
    Reserved,
}

/// The field attribute key that an identifier names; any other name is an
/// unsupported attribute.
pub fn field_attr_key(ident: &str) -> (k: Option<FieldAttrKey>)
    ensures
        k == (if ident@ == "bits"@ {
            Some(FieldAttrKey::Bits)
        } else if ident@ == "scale"@ {
            Some(FieldAttrKey::Scale)
        } else if ident@ == "offset"@ {
            Some(FieldAttrKey::Offset)
        } else if ident@ == "encoding"@ {
            Some(FieldAttrKey::Encoding)
        } else if ident@ == "unit"@ {
            Some(FieldAttrKey::Unit)
        } else if ident@ == "reserved"@ {
            Some(FieldAttrKey::Reserved)
        } else {
            None
        }),
{
    if str_eq(ident, "bits") {
        Some(FieldAttrKey::Bits)
    } else if str_eq(ident, "scale") {
        Some(FieldAttrKey::Scale)
    } else if str_eq(ident, "offset") {
        Some(FieldAttrKey::Offset)
    } else if str_eq(ident, "encoding") {
        Some(FieldAttrKey::Encoding)
    } else if str_eq(ident, "unit") {
        Some(FieldAttrKey::Unit)
    } else if str_eq(ident, "reserved") {
        Some(FieldAttrKey::Reserved)
    } else {
        None
    }
}

/// What the rules need to know of a scaled field's factors: whether its
/// offset is zero (the factors themselves stay with the generated code).
#[derive(Debug, Clone, Copy, PartialEq, Eq, Structural)]
pub struct Scaling {
    pub offset_is_zero: bool,
}

/// Why a field attribute is refused.
#[derive(Debug, Clone)]
pub enum FieldAttrError {
    /// `bits` gave no start.
    MissingBitsStart,
    /// `bits` gave no end.
    MissingBitsEnd,
    /// `encoding` named something other than `q9`.
    UnknownEncoding(String),
    /// A float field with neither `scale` nor `encoding`.
    FloatWithoutScale,
}

/// What the text of a field type looks like to encoding inference.
#[derive(Debug, Clone, Copy, PartialEq, Eq, Structural)]
pub enum TypeClass {
    Float,
    SignedInt,
    UnsignedInt,
    Other,
}

/// How the text of a field type is classed when no attribute decides the
/// encoding: `f32` and `f64` are floats, `i8`, `i16` and `i32` signed
/// integers, `u8`, `u16` and `u32` unsigned integers; any other type is
/// taken for an enum.
pub open spec fn type_class(ty: Seq<char>) -> TypeClass {
    if ty == "f32"@ || ty == "f64"@ {
        TypeClass::Float
    } else if ty == "i8"@ || ty == "i16"@ || ty == "i32"@ {
        TypeClass::SignedInt
    } else if ty == "u8"@ || ty == "u16"@ || ty == "u32"@ {
        TypeClass::UnsignedInt
    } else {
        TypeClass::Other
    }
}

/// What `resolve_field_attr` gives for what a field attribute held.
pub open spec fn resolves_to(
    bit_start: Option<usize>,
    bit_end: Option<usize>,
    is_reserved: bool,
    encoding_type: Option<String>,
    scaling: Option<Scaling>,
    ty: Seq<char>,
    r: Result<(usize, usize, Encoding), FieldAttrError>,
) -> bool {
    &&& (bit_start is None ==> r matches Err(FieldAttrError::MissingBitsStart))
    &&& (bit_start is Some && bit_end is None ==> r matches Err(FieldAttrError::MissingBitsEnd))
    &&& (bit_start is Some && bit_end is Some ==> match r {
        Ok((s, e, enc)) => {
            &&& s == bit_start->0 && e == bit_end->0
            &&& if is_reserved {
                enc is Reserved
            } else if encoding_type is Some {
                encoding_type->0@ == "q9"@ && enc is Q9
            } else if scaling is Some {
                enc == Encoding::Scaled { offset_is_zero: scaling->0.offset_is_zero }
            } else {
                match type_class(ty) {
                    TypeClass::Float => false,
                    TypeClass::SignedInt => enc is SInt,
                    TypeClass::UnsignedInt => enc is UInt,
                    TypeClass::Other => enc matches Encoding::Enum(t) && t@ == ty,
                }
            }
        },
        Err(FieldAttrError::UnknownEncoding(name)) => !is_reserved && encoding_type is Some
            && encoding_type->0@ != "q9"@ && name@ == encoding_type->0@,
        Err(FieldAttrError::FloatWithoutScale) => !is_reserved && encoding_type is None
            && scaling is None && type_class(ty) == TypeClass::Float,
        Err(_) => false,
    })
}

/// Decides a field's bit range and encoding from what its attribute held.
/// A missing range start is reported first, then a missing end. Then the
/// encoding: `reserved` wins, then an `encoding` name (only `q9` is known),
/// then a `scale`, and otherwise the field type's text decides.
pub fn resolve_field_attr(
    bit_start: Option<usize>,
    bit_end: Option<usize>,
    is_reserved: bool,
    encoding_type: Option<String>,
    scaling: Option<Scaling>,
    ty: &str,
) -> (r: Result<(usize, usize, Encoding), FieldAttrError>)
    ensures
        resolves_to(bit_start, bit_end, is_reserved, encoding_type, scaling, ty@, r),
{
    let start = match bit_start {
        Some(s) => s,
        None => return Err(FieldAttrError::MissingBitsStart),
    };
    let end = match bit_end {
        Some(e) => e,
        None => return Err(FieldAttrError::MissingBitsEnd),
    };
    let encoding = if is_reserved {
        Encoding::Reserved
    } else if let Some(enc) = encoding_type {
        if str_eq(enc.as_str(), "q9") {
            Encoding::Q9
        } else {
            return Err(FieldAttrError::UnknownEncoding(enc));
        }
    } else if let Some(sc) = scaling {
        Encoding::Scaled { offset_is_zero: sc.offset_is_zero }
    } else {
        if str_eq(ty, "f32") || str_eq(ty, "f64") {
            return Err(FieldAttrError::FloatWithoutScale);
        } else if str_eq(ty, "i8") || str_eq(ty, "i16") || str_eq(ty, "i32") {
            Encoding::SInt
        } else if str_eq(ty, "u8") || str_eq(ty, "u16") || str_eq(ty, "u32") {
            Encoding::UInt
        } else {
            Encoding::Enum(String::from_str(ty))
        }
    };
    Ok((start, end, encoding))
}

/// With a bit range and no `reserved` flag, encoding name or scale, a field
/// of type `i8`, `i16` or `i32` is a signed integer and one of type `u8`,
/// `u16` or `u32` an unsigned integer, over the range given.
pub proof fn law_integer_types_resolve_by_sign(
    bit_start: Option<usize>,
    bit_end: Option<usize>,
    ty: Seq<char>,
    r: Result<(usize, usize, Encoding), FieldAttrError>,
)
    requires
        resolves_to(bit_start, bit_end, false, None, None, ty, r),
        bit_start is Some,
        bit_end is Some,
    ensures
        ty == "i8"@ || ty == "i16"@ || ty == "i32"@ ==> r == Ok::<
            (usize, usize, Encoding),
            FieldAttrError,
        >((bit_start->0, bit_end->0, Encoding::SInt)),
        ty == "u8"@ || ty == "u16"@ || ty == "u32"@ ==> r == Ok::<
            (usize, usize, Encoding),
            FieldAttrError,
        >((bit_start->0, bit_end->0, Encoding::UInt)),
{
    reveal_strlit("f32");
    reveal_strlit("f64");
    reveal_strlit("i8");
    reveal_strlit("i16");
    reveal_strlit("i32");
    reveal_strlit("u8");
    reveal_strlit("u16");
    reveal_strlit("u32");
    if ty == "i8"@ || ty == "i16"@ || ty == "i32"@ {
        assert(ty[0] == 'i');
        assert("f32"@[0] == 'f' && "f64"@[0] == 'f');
        assert(type_class(ty) == TypeClass::SignedInt);
    }
    if ty == "u8"@ || ty == "u16"@ || ty == "u32"@ {
        assert(ty[0] == 'u');
        assert("f32"@[0] == 'f' && "f64"@[0] == 'f');
        assert("i8"@[0] == 'i' && "i16"@[0] == 'i' && "i32"@[0] == 'i');
        assert(type_class(ty) == TypeClass::UnsignedInt);
    }
}

} // verus!
