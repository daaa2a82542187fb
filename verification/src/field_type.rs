//! The types a vtable field can have, and their one-byte tags.
use vstd::prelude::*;
use crate::error::Error;

verus! {

/// The type of a field in the vtable.
#[derive(Debug)]
pub enum VTableFieldType {
    U8,
    U16,
    U32,
    U64,
    U128,
    USIZE,
    I8,
    I16,
    I32,
    I64,
    I128,
    ISIZE,
    F32,
    F64,
    String,
    Str,
    Bytes,
    Bool,
    /// A nested struct, by name.
    Struct(String),
    Option(Box<VTableFieldType>),
    Vec(Box<VTableFieldType>),
    HashMap { key: Box<VTableFieldType>, value: Box<VTableFieldType> },
    Uuid,
}

/// Mathematical model of a field type: strings are taken by their characters.
pub enum FieldTypeModel {
    U8,
    U16,
    U32,
    U64,
    U128,
    USIZE,
    I8,
    I16,
    I32,
    I64,
    I128,
    ISIZE,
    F32,
    F64,
    String,
    Str,
    Bytes,
    Bool,
    Struct(Seq<char>),
    Option(Box<FieldTypeModel>),
    Vec(Box<FieldTypeModel>),
    HashMap { key: Box<FieldTypeModel>, value: Box<FieldTypeModel> },
    Uuid,
}

impl VTableFieldType {
    /// The model of the type.
    pub open spec fn model(self) -> FieldTypeModel
        decreases self,
    {
        match self {
            VTableFieldType::U8 => FieldTypeModel::U8,
            VTableFieldType::U16 => FieldTypeModel::U16,
            VTableFieldType::U32 => FieldTypeModel::U32,
            VTableFieldType::U64 => FieldTypeModel::U64,
            VTableFieldType::U128 => FieldTypeModel::U128,
            VTableFieldType::USIZE => FieldTypeModel::USIZE,
            VTableFieldType::I8 => FieldTypeModel::I8,
            VTableFieldType::I16 => FieldTypeModel::I16,
            VTableFieldType::I32 => FieldTypeModel::I32,
            VTableFieldType::I64 => FieldTypeModel::I64,
            VTableFieldType::I128 => FieldTypeModel::I128,
            VTableFieldType::ISIZE => FieldTypeModel::ISIZE,
            VTableFieldType::F32 => FieldTypeModel::F32,
            VTableFieldType::F64 => FieldTypeModel::F64,
            VTableFieldType::String => FieldTypeModel::String,
            VTableFieldType::Str => FieldTypeModel::Str,
            VTableFieldType::Bytes => FieldTypeModel::Bytes,
            VTableFieldType::Bool => FieldTypeModel::Bool,
            VTableFieldType::Struct(s) => FieldTypeModel::Struct(s@),
            VTableFieldType::Option(t) => FieldTypeModel::Option(Box::new((*t).model())),
            VTableFieldType::Vec(t) => FieldTypeModel::Vec(Box::new((*t).model())),
            VTableFieldType::HashMap { key, value } => FieldTypeModel::HashMap {
                key: Box::new((*key).model()),
                value: Box::new((*value).model()),
            },
            VTableFieldType::Uuid => FieldTypeModel::Uuid,
        }
    }
}

impl View for VTableFieldType {
    type V = FieldTypeModel;

    open spec fn view(&self) -> FieldTypeModel {
        self.model()
    }
}

impl FieldTypeModel {
    /// One-byte tag of the type (the nested types are not part of the tag).
    pub open spec fn tag(self) -> u8 {
        match self {
            FieldTypeModel::U8 => 0,
            FieldTypeModel::U16 => 1,
            FieldTypeModel::U32 => 2,
            FieldTypeModel::U64 => 3,
            FieldTypeModel::U128 => 4,
            FieldTypeModel::USIZE => 5,
            FieldTypeModel::I8 => 6,
            FieldTypeModel::I16 => 7,
            FieldTypeModel::I32 => 8,
            FieldTypeModel::I64 => 9,
            FieldTypeModel::I128 => 10,
            FieldTypeModel::ISIZE => 11,
            FieldTypeModel::F32 => 12,
            FieldTypeModel::F64 => 13,
            FieldTypeModel::String => 14,
            FieldTypeModel::Str => 15,
            FieldTypeModel::Vec(_) => 16,
            FieldTypeModel::Bytes => 17,
            FieldTypeModel::Bool => 18,
            FieldTypeModel::Struct(_) => 19,
            FieldTypeModel::HashMap { .. } => 20,
            FieldTypeModel::Uuid => 21,
            FieldTypeModel::Option(_) => 22,
        }
    }

    /// The type a tag stands for, with placeholder payloads: an empty struct
    /// name, and `u8` for the nested types.
    pub open spec fn from_tag(tag: u8) -> Option<FieldTypeModel> {
        if tag == 0 {
            Some(FieldTypeModel::U8)
        } else if tag == 1 {
            Some(FieldTypeModel::U16)
        } else if tag == 2 {
            Some(FieldTypeModel::U32)
        } else if tag == 3 {
            Some(FieldTypeModel::U64)
        } else if tag == 4 {
            Some(FieldTypeModel::U128)
        } else if tag == 5 {
            Some(FieldTypeModel::USIZE)
        } else if tag == 6 {
            Some(FieldTypeModel::I8)
        } else if tag == 7 {
            Some(FieldTypeModel::I16)
        } else if tag == 8 {
            Some(FieldTypeModel::I32)
        } else if tag == 9 {
            Some(FieldTypeModel::I64)
        } else if tag == 10 {
            Some(FieldTypeModel::I128)
        } else if tag == 11 {
            Some(FieldTypeModel::ISIZE)
        } else if tag == 12 {
            Some(FieldTypeModel::F32)
        } else if tag == 13 {
            Some(FieldTypeModel::F64)
        } else if tag == 14 {
            Some(FieldTypeModel::String)
        } else if tag == 15 {
            Some(FieldTypeModel::Str)
        } else if tag == 16 {
            Some(FieldTypeModel::Vec(Box::new(FieldTypeModel::U8)))
        } else if tag == 17 {
            Some(FieldTypeModel::Bytes)
        } else if tag == 18 {
            Some(FieldTypeModel::Bool)
        } else if tag == 19 {
            Some(FieldTypeModel::Struct(Seq::empty()))
        } else if tag == 20 {
            Some(
                FieldTypeModel::HashMap {
                    key: Box::new(FieldTypeModel::U8),
                    value: Box::new(FieldTypeModel::U8),
                },
            )
        } else if tag == 21 {
            Some(FieldTypeModel::Uuid)
        } else if tag == 22 {
            Some(FieldTypeModel::Option(Box::new(FieldTypeModel::U8)))
        } else {
            None
        }
    }

    /// The type is fully described by its tag.
    pub open spec fn is_tag_exact(self) -> bool {
        FieldTypeModel::from_tag(self.tag()) == Some(self)
    }

    /// The name of the struct the type refers to, looking through `Option` and `Vec`.
    pub open spec fn struct_name(self) -> Option<Seq<char>>
        decreases self,
    {
        match self {
            FieldTypeModel::Struct(name) => Some(name),
            FieldTypeModel::Option(t) => (*t).struct_name(),
            FieldTypeModel::Vec(t) => (*t).struct_name(),
            _ => None,
        }
    }
}

/// The textual form of a type, as it appears in error messages.
pub open spec fn type_text(t: FieldTypeModel) -> Seq<char>
    decreases t,
{
    match t {
        FieldTypeModel::U8 => "u8"@,
        FieldTypeModel::U16 => "u16"@,
        FieldTypeModel::U32 => "u32"@,
        FieldTypeModel::U64 => "u64"@,
        FieldTypeModel::U128 => "u128"@,
        FieldTypeModel::USIZE => "usize"@,
        FieldTypeModel::I8 => "i8"@,
        FieldTypeModel::I16 => "i16"@,
        FieldTypeModel::I32 => "i32"@,
        FieldTypeModel::I64 => "i64"@,
        FieldTypeModel::I128 => "i128"@,
        FieldTypeModel::ISIZE => "isize"@,
        FieldTypeModel::F32 => "f32"@,
        FieldTypeModel::F64 => "f64"@,
        FieldTypeModel::String => "String"@,
        FieldTypeModel::Str => "&str"@,
        FieldTypeModel::Vec(x) => "Vec<"@ + type_text(*x) + ">"@,
        FieldTypeModel::Bytes => "Bytes"@,
        FieldTypeModel::Bool => "bool"@,
        FieldTypeModel::Struct(s) => s,
        FieldTypeModel::HashMap { key, value } => "HashMap<"@ + type_text(*key) + ", "@ + type_text(
            *value,
        ) + ">"@,
        FieldTypeModel::Uuid => "Uuid"@,
        FieldTypeModel::Option(x) => "Option<"@ + type_text(*x) + ">"@,
    }
}

/// Every tag from 0 to 22 stands for a type whose tag is that tag.
pub proof fn lemma_tag_roundtrip(tag: u8)
    requires
        tag <= 22,
    ensures
        FieldTypeModel::from_tag(tag) is Some,
        FieldTypeModel::from_tag(tag).unwrap().tag() == tag,
        FieldTypeModel::from_tag(tag).unwrap().is_tag_exact(),
{
}

impl VTableFieldType {
    /// The one-byte tag of the type.
    pub fn as_u8(&self) -> (t: u8)
        ensures
            t == self@.tag(),
    {
        match self {
            VTableFieldType::U8 => 0,
            VTableFieldType::U16 => 1,
            VTableFieldType::U32 => 2,
            VTableFieldType::U64 => 3,
            VTableFieldType::U128 => 4,
            VTableFieldType::USIZE => 5,
            VTableFieldType::I8 => 6,
            VTableFieldType::I16 => 7,
            VTableFieldType::I32 => 8,
            VTableFieldType::I64 => 9,
            VTableFieldType::I128 => 10,
            VTableFieldType::ISIZE => 11,
            VTableFieldType::F32 => 12,
            VTableFieldType::F64 => 13,
            VTableFieldType::String => 14,
            VTableFieldType::Str => 15,
            VTableFieldType::Vec(_) => 16,
            VTableFieldType::Bytes => 17,
            VTableFieldType::Bool => 18,
            VTableFieldType::Struct(_) => 19,
            VTableFieldType::HashMap { .. } => 20,
            VTableFieldType::Uuid => 21,
            VTableFieldType::Option(_) => 22,
        }
    }

    /// The type a tag stands for; an error for a tag above 22.
    pub fn try_from_u8(byte: u8) -> (res: Result<Self, Error>)
        ensures
            match res {
                Ok(t) => FieldTypeModel::from_tag(byte) == Some(t@),
                Err(e) => FieldTypeModel::from_tag(byte) is None && e == Error::UnknownFieldType(
                    byte,
                ),
            },
    {
        let t = match byte {
            0 => VTableFieldType::U8,
            1 => VTableFieldType::U16,
            2 => VTableFieldType::U32,
            3 => VTableFieldType::U64,
            4 => VTableFieldType::U128,
            5 => VTableFieldType::USIZE,
            6 => VTableFieldType::I8,
            7 => VTableFieldType::I16,
            8 => VTableFieldType::I32,
            9 => VTableFieldType::I64,
            10 => VTableFieldType::I128,
            11 => VTableFieldType::ISIZE,
            12 => VTableFieldType::F32,
            13 => VTableFieldType::F64,
            14 => VTableFieldType::String,
            15 => VTableFieldType::Str,
            16 => VTableFieldType::Vec(Box::new(VTableFieldType::U8)),
            17 => VTableFieldType::Bytes,
            18 => VTableFieldType::Bool,
            19 => VTableFieldType::Struct(String::new()),
            20 => VTableFieldType::HashMap {
                key: Box::new(VTableFieldType::U8),
                value: Box::new(VTableFieldType::U8),
            },
            21 => VTableFieldType::Uuid,
            22 => VTableFieldType::Option(Box::new(VTableFieldType::U8)),
            _ => return Err(Error::UnknownFieldType(byte)),
        };
        proof {
            reveal_with_fuel(VTableFieldType::model, 2);
        }
        Ok(t)
    }

    /// The textual form of the type (`u8`, `Vec<String>`, `HashMap<String, u32>`, ...).
    pub fn type_label(&self) -> (s: String)
        ensures
            s@ == type_text(self@),
        decreases self,
    {
        let mut s = String::new();
        match self {
            VTableFieldType::U8 => s.append("u8"),
            VTableFieldType::U16 => s.append("u16"),
            VTableFieldType::U32 => s.append("u32"),
            VTableFieldType::U64 => s.append("u64"),
            VTableFieldType::U128 => s.append("u128"),
            VTableFieldType::USIZE => s.append("usize"),
            VTableFieldType::I8 => s.append("i8"),
            VTableFieldType::I16 => s.append("i16"),
            VTableFieldType::I32 => s.append("i32"),
            VTableFieldType::I64 => s.append("i64"),
            VTableFieldType::I128 => s.append("i128"),
            VTableFieldType::ISIZE => s.append("isize"),
            VTableFieldType::F32 => s.append("f32"),
            VTableFieldType::F64 => s.append("f64"),
            VTableFieldType::String => s.append("String"),
            VTableFieldType::Str => s.append("&str"),
            VTableFieldType::Vec(t) => {
                s.append("Vec<");
                s.append(t.type_label().as_str());
                s.append(">");
            },
            VTableFieldType::Bytes => s.append("Bytes"),
            VTableFieldType::Bool => s.append("bool"),
            VTableFieldType::Struct(name) => s.append(name.as_str()),
            VTableFieldType::HashMap { key, value } => {
                s.append("HashMap<");
                s.append(key.type_label().as_str());
                s.append(", ");
                s.append(value.type_label().as_str());
                s.append(">");
            },
            VTableFieldType::Uuid => s.append("Uuid"),
            VTableFieldType::Option(t) => {
                s.append("Option<");
                s.append(t.type_label().as_str());
                s.append(">");
            },
        }
        proof {
            assert(Seq::<char>::empty() + type_text(self@) =~= type_text(self@));
        }
        s
    }

    /// A copy of the type with the same model.
    pub fn duplicate(&self) -> (r: Self)
        ensures
            r@ == self@,
        decreases self,
    {
        match self {
            VTableFieldType::U8 => VTableFieldType::U8,
            VTableFieldType::U16 => VTableFieldType::U16,
            VTableFieldType::U32 => VTableFieldType::U32,
            VTableFieldType::U64 => VTableFieldType::U64,
            VTableFieldType::U128 => VTableFieldType::U128,
            VTableFieldType::USIZE => VTableFieldType::USIZE,
            VTableFieldType::I8 => VTableFieldType::I8,
            VTableFieldType::I16 => VTableFieldType::I16,
            VTableFieldType::I32 => VTableFieldType::I32,
            VTableFieldType::I64 => VTableFieldType::I64,
            VTableFieldType::I128 => VTableFieldType::I128,
            VTableFieldType::ISIZE => VTableFieldType::ISIZE,
            VTableFieldType::F32 => VTableFieldType::F32,
            VTableFieldType::F64 => VTableFieldType::F64,
            VTableFieldType::String => VTableFieldType::String,
            VTableFieldType::Str => VTableFieldType::Str,
            VTableFieldType::Bytes => VTableFieldType::Bytes,
            VTableFieldType::Bool => VTableFieldType::Bool,
            VTableFieldType::Struct(s) => VTableFieldType::Struct(s.clone()),
            VTableFieldType::Option(t) => VTableFieldType::Option(Box::new(t.duplicate())),
            VTableFieldType::Vec(t) => VTableFieldType::Vec(Box::new(t.duplicate())),
            VTableFieldType::HashMap { key, value } => VTableFieldType::HashMap {
                key: Box::new(key.duplicate()),
                value: Box::new(value.duplicate()),
            },
            VTableFieldType::Uuid => VTableFieldType::Uuid,
        }
    }

    /// Whether two types are equal (struct names compared by their characters).
    pub fn eq_type(&self, other: &Self) -> (r: bool)
        ensures
            r == (self@ == other@),
        decreases self,
    {
        match (self, other) {
            (VTableFieldType::U8, VTableFieldType::U8)
            | (VTableFieldType::U16, VTableFieldType::U16)
            | (VTableFieldType::U32, VTableFieldType::U32)
            | (VTableFieldType::U64, VTableFieldType::U64)
            | (VTableFieldType::U128, VTableFieldType::U128)
            | (VTableFieldType::USIZE, VTableFieldType::USIZE)
            | (VTableFieldType::I8, VTableFieldType::I8)
            | (VTableFieldType::I16, VTableFieldType::I16)
            | (VTableFieldType::I32, VTableFieldType::I32)
            | (VTableFieldType::I64, VTableFieldType::I64)
            | (VTableFieldType::I128, VTableFieldType::I128)
            | (VTableFieldType::ISIZE, VTableFieldType::ISIZE)
            | (VTableFieldType::F32, VTableFieldType::F32)
            | (VTableFieldType::F64, VTableFieldType::F64)
            | (VTableFieldType::String, VTableFieldType::String)
            | (VTableFieldType::Str, VTableFieldType::Str)
            | (VTableFieldType::Bytes, VTableFieldType::Bytes)
            | (VTableFieldType::Bool, VTableFieldType::Bool)
            | (VTableFieldType::Uuid, VTableFieldType::Uuid) => true,
            (VTableFieldType::Struct(s1), VTableFieldType::Struct(s2)) => s1.eq(s2),
            (
                VTableFieldType::HashMap { key: k1, value: v1 },
                VTableFieldType::HashMap { key: k2, value: v2 },
            ) => k1.eq_type(k2) && v1.eq_type(v2),
            (VTableFieldType::Option(o1), VTableFieldType::Option(o2)) => o1.eq_type(o2),
            (VTableFieldType::Vec(t1), VTableFieldType::Vec(t2)) => t1.eq_type(t2),
            _ => false,
        }
    }

    /// The name of the struct the type refers to, looking through `Option` and `Vec`.
    pub fn is_struct(field_type: VTableFieldType) -> (r: Option<String>)
        ensures
            r matches Some(name) ==> field_type@.struct_name() == Some(name@),
            r is None ==> field_type@.struct_name() is None,
        decreases field_type,
    {
        match field_type {
            VTableFieldType::Struct(name) => Some(name),
            VTableFieldType::Option(opt) => Self::is_struct(*opt),
            VTableFieldType::Vec(t) => Self::is_struct(*t),
            _ => None,
        }
    }
}

impl Clone for VTableFieldType {
    fn clone(&self) -> (r: Self)
        ensures
            r@ == self@,
    {
        self.duplicate()
    }
}

} // verus!
