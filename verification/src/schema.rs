//! A flat schema: declarations of structures whose fields refer to
//! primitives and to other declarations by name.

use vstd::prelude::*;
use vstd::string::*;
use vstd::utf8::is_ascii_chars;
use crate::render::{decimal, push_decimal};

verus! {

/// The primitive types, each with the one-byte code that identifies it.
#[derive(Copy, Clone, Ord, PartialOrd, Eq, PartialEq, Hash, Debug)]
pub enum PrimitiveType {
    U8,
    U16,
    U32,
    U64,
    U128,
    U256,
    U512,
    U1024,
    I8,
    I16,
    I32,
    I64,
    I128,
    I256,
    I512,
    I1024,
    F16b,
    F16,
    F32,
    F64,
    F80,
    F128,
    F256,
    F512,
    Unicode,
    Bytes,
}

impl PrimitiveType {
    /// The code of the primitive: unsigned integers from 0x00, signed ones
    /// from 0x10, floats from 0x30, then 0xFE and 0xFF.
    pub open spec fn spec_code(&self) -> u8 {
        match self {
            PrimitiveType::U8 => 0x00,
            PrimitiveType::U16 => 0x01,
            PrimitiveType::U32 => 0x02,
            PrimitiveType::U64 => 0x03,
            PrimitiveType::U128 => 0x04,
            PrimitiveType::U256 => 0x05,
            PrimitiveType::U512 => 0x06,
            PrimitiveType::U1024 => 0x07,
            PrimitiveType::I8 => 0x10,
            PrimitiveType::I16 => 0x11,
            PrimitiveType::I32 => 0x12,
            PrimitiveType::I64 => 0x13,
            PrimitiveType::I128 => 0x14,
            PrimitiveType::I256 => 0x15,
            PrimitiveType::I512 => 0x16,
            PrimitiveType::I1024 => 0x17,
            PrimitiveType::F16b => 0x30,
            PrimitiveType::F16 => 0x31,
            PrimitiveType::F32 => 0x32,
            PrimitiveType::F64 => 0x33,
            PrimitiveType::F80 => 0x34,
            PrimitiveType::F128 => 0x35,
            PrimitiveType::F256 => 0x36,
            PrimitiveType::F512 => 0x37,
            PrimitiveType::Unicode => 0xFE,
            PrimitiveType::Bytes => 0xFF,
        }
    }

    /// The code of the primitive.
    pub fn code(&self) -> (c: u8)
        ensures
            c == self.spec_code(),
    {
        match self {
            PrimitiveType::U8 => 0x00,
            PrimitiveType::U16 => 0x01,
            PrimitiveType::U32 => 0x02,
            PrimitiveType::U64 => 0x03,
            PrimitiveType::U128 => 0x04,
            PrimitiveType::U256 => 0x05,
            PrimitiveType::U512 => 0x06,
            PrimitiveType::U1024 => 0x07,
            PrimitiveType::I8 => 0x10,
            PrimitiveType::I16 => 0x11,
            PrimitiveType::I32 => 0x12,
            PrimitiveType::I64 => 0x13,
            PrimitiveType::I128 => 0x14,
            PrimitiveType::I256 => 0x15,
            PrimitiveType::I512 => 0x16,
            PrimitiveType::I1024 => 0x17,
            PrimitiveType::F16b => 0x30,
            PrimitiveType::F16 => 0x31,
            PrimitiveType::F32 => 0x32,
            PrimitiveType::F64 => 0x33,
            PrimitiveType::F80 => 0x34,
            PrimitiveType::F128 => 0x35,
            PrimitiveType::F256 => 0x36,
            PrimitiveType::F512 => 0x37,
            PrimitiveType::Unicode => 0xFE,
            PrimitiveType::Bytes => 0xFF,
        }
    }

    /// The primitive that `code` identifies, if there is one.
    pub fn from_code(code: u8) -> (r: Option<PrimitiveType>)
        ensures
            match r {
                Some(p) => p.spec_code() == code,
                None => forall|p: PrimitiveType| p.spec_code() != code,
            },
    {
        match code {
            0x00 => Some(PrimitiveType::U8),
            0x01 => Some(PrimitiveType::U16),
            0x02 => Some(PrimitiveType::U32),
            0x03 => Some(PrimitiveType::U64),
            0x04 => Some(PrimitiveType::U128),
            0x05 => Some(PrimitiveType::U256),
            0x06 => Some(PrimitiveType::U512),
            0x07 => Some(PrimitiveType::U1024),
            0x10 => Some(PrimitiveType::I8),
            0x11 => Some(PrimitiveType::I16),
            0x12 => Some(PrimitiveType::I32),
            0x13 => Some(PrimitiveType::I64),
            0x14 => Some(PrimitiveType::I128),
            0x15 => Some(PrimitiveType::I256),
            0x16 => Some(PrimitiveType::I512),
            0x17 => Some(PrimitiveType::I1024),
            0x30 => Some(PrimitiveType::F16b),
            0x31 => Some(PrimitiveType::F16),
            0x32 => Some(PrimitiveType::F32),
            0x33 => Some(PrimitiveType::F64),
            0x34 => Some(PrimitiveType::F80),
            0x35 => Some(PrimitiveType::F128),
            0x36 => Some(PrimitiveType::F256),
            0x37 => Some(PrimitiveType::F512),
            0xFE => Some(PrimitiveType::Unicode),
            0xFF => Some(PrimitiveType::Bytes),
            _ => None,
        }
    }

    /// The name of the primitive as it is declared.
    pub open spec fn spec_text(&self) -> Seq<char> {
        match self {
            PrimitiveType::U8 => "U8"@,
            PrimitiveType::U16 => "U16"@,
            PrimitiveType::U32 => "U32"@,
            PrimitiveType::U64 => "U64"@,
            PrimitiveType::U128 => "U128"@,
            PrimitiveType::U256 => "U256"@,
            PrimitiveType::U512 => "U512"@,
            PrimitiveType::U1024 => "U1024"@,
            PrimitiveType::I8 => "I8"@,
            PrimitiveType::I16 => "I16"@,
            PrimitiveType::I32 => "I32"@,
            PrimitiveType::I64 => "I64"@,
            PrimitiveType::I128 => "I128"@,
            PrimitiveType::I256 => "I256"@,
            PrimitiveType::I512 => "I512"@,
            PrimitiveType::I1024 => "I1024"@,
            PrimitiveType::F16b => "F16b"@,
            PrimitiveType::F16 => "F16"@,
            PrimitiveType::F32 => "F32"@,
            PrimitiveType::F64 => "F64"@,
            PrimitiveType::F80 => "F80"@,
            PrimitiveType::F128 => "F128"@,
            PrimitiveType::F256 => "F256"@,
            PrimitiveType::F512 => "F512"@,
            PrimitiveType::Unicode => "Unicode"@,
            PrimitiveType::Bytes => "Bytes"@,
        }
    }

    /// The name of the primitive as it is declared.
    pub fn as_str(&self) -> (s: &'static str)
        ensures
            s@ == self.spec_text(),
    {
        match self {
            PrimitiveType::U8 => "U8",
            PrimitiveType::U16 => "U16",
            PrimitiveType::U32 => "U32",
            PrimitiveType::U64 => "U64",
            PrimitiveType::U128 => "U128",
            PrimitiveType::U256 => "U256",
            PrimitiveType::U512 => "U512",
            PrimitiveType::U1024 => "U1024",
            PrimitiveType::I8 => "I8",
            PrimitiveType::I16 => "I16",
            PrimitiveType::I32 => "I32",
            PrimitiveType::I64 => "I64",
            PrimitiveType::I128 => "I128",
            PrimitiveType::I256 => "I256",
            PrimitiveType::I512 => "I512",
            PrimitiveType::I1024 => "I1024",
            PrimitiveType::F16b => "F16b",
            PrimitiveType::F16 => "F16",
            PrimitiveType::F32 => "F32",
            PrimitiveType::F64 => "F64",
            PrimitiveType::F80 => "F80",
            PrimitiveType::F128 => "F128",
            PrimitiveType::F256 => "F256",
            PrimitiveType::F512 => "F512",
            PrimitiveType::Unicode => "Unicode",
            PrimitiveType::Bytes => "Bytes",
        }
    }

    /// Renders the textual form.
    pub fn to_string(&self) -> (s: String)
        ensures
            s@ == self.spec_text(),
    {
        String::from_str(self.as_str())
    }

    /// The canonical code of the primitive in the textual form of types:
    /// lower case for the numbers, `Bytes` and `Unicode` for the other two.
    pub open spec fn spec_code_text(&self) -> Seq<char> {
        match self {
            PrimitiveType::U8 => "u8"@,
            PrimitiveType::U16 => "u16"@,
            PrimitiveType::U32 => "u32"@,
            PrimitiveType::U64 => "u64"@,
            PrimitiveType::U128 => "u128"@,
            PrimitiveType::U256 => "u256"@,
            PrimitiveType::U512 => "u512"@,
            PrimitiveType::U1024 => "u1024"@,
            PrimitiveType::I8 => "i8"@,
            PrimitiveType::I16 => "i16"@,
            PrimitiveType::I32 => "i32"@,
            PrimitiveType::I64 => "i64"@,
            PrimitiveType::I128 => "i128"@,
            PrimitiveType::I256 => "i256"@,
            PrimitiveType::I512 => "i512"@,
            PrimitiveType::I1024 => "i1024"@,
            PrimitiveType::F16b => "f16b"@,
            PrimitiveType::F16 => "f16"@,
            PrimitiveType::F32 => "f32"@,
            PrimitiveType::F64 => "f64"@,
            PrimitiveType::F80 => "f80"@,
            PrimitiveType::F128 => "f128"@,
            PrimitiveType::F256 => "f256"@,
            PrimitiveType::F512 => "f512"@,
            PrimitiveType::Unicode => "Unicode"@,
            PrimitiveType::Bytes => "Bytes"@,
        }
    }

    /// The canonical code of the primitive as text.
    pub fn code_str(&self) -> (s: &'static str)
        ensures
            s@ == self.spec_code_text(),
    {
        match self {
            PrimitiveType::U8 => "u8",
            PrimitiveType::U16 => "u16",
            PrimitiveType::U32 => "u32",
            PrimitiveType::U64 => "u64",
            PrimitiveType::U128 => "u128",
            PrimitiveType::U256 => "u256",
            PrimitiveType::U512 => "u512",
            PrimitiveType::U1024 => "u1024",
            PrimitiveType::I8 => "i8",
            PrimitiveType::I16 => "i16",
            PrimitiveType::I32 => "i32",
            PrimitiveType::I64 => "i64",
            PrimitiveType::I128 => "i128",
            PrimitiveType::I256 => "i256",
            PrimitiveType::I512 => "i512",
            PrimitiveType::I1024 => "i1024",
            PrimitiveType::F16b => "f16b",
            PrimitiveType::F16 => "f16",
            PrimitiveType::F32 => "f32",
            PrimitiveType::F64 => "f64",
            PrimitiveType::F80 => "f80",
            PrimitiveType::F128 => "f128",
            PrimitiveType::F256 => "f256",
            PrimitiveType::F512 => "f512",
            PrimitiveType::Unicode => "Unicode",
            PrimitiveType::Bytes => "Bytes",
        }
    }
}

/// What a name of a declaration is made of: 1 to 32 ASCII characters.
pub open spec fn valid_ascii_name(s: Seq<char>) -> bool {
    1 <= s.len() <= 32 && is_ascii_chars(s)
}

/// A text of 1 to 32 ASCII characters.
#[derive(Ord, PartialOrd, Eq, PartialEq, Hash, Debug)]
pub struct AsciiString {
    text: String,
}

impl View for AsciiString {
    type V = Seq<char>;

    closed spec fn view(&self) -> Seq<char> {
        self.text@
    }
}

impl Clone for AsciiString {
    fn clone(&self) -> (r: Self)
        ensures
            r@ == self@,
    {
        proof {
            use_type_invariant(self);
        }
        AsciiString { text: self.text.clone() }
    }
}

impl AsciiString {
    #[verifier::type_invariant]
    closed spec fn inv(&self) -> bool {
        valid_ascii_name(self.text@)
    }

    /// Takes `s` as it is.
    pub fn from_str(s: &str) -> (r: AsciiString)
        requires
            valid_ascii_name(s@),
        ensures
            r@ == s@,
    {
        AsciiString { text: String::from_str(s) }
    }

    /// Takes `s`, if it is made of 1 to 32 ASCII characters.
    pub fn try_from(s: &str) -> (r: Option<AsciiString>)
        ensures
            match r {
                Some(a) => valid_ascii_name(s@) && a@ == s@,
                None => !valid_ascii_name(s@),
            },
    {
        if !s.is_ascii() {
            return None;
        }
        let n = s.unicode_len();
        if n == 0 || n > 32 {
            return None;
        }
        Some(AsciiString { text: String::from_str(s) })
    }

    /// The text.
    pub fn as_str(&self) -> (s: &str)
        ensures
            s@ == self@,
            valid_ascii_name(s@),
    {
        proof {
            use_type_invariant(self);
        }
        self.text.as_str()
    }
}

/// A reference to the type of a field: a primitive, or a declaration by name.
#[derive(Clone, Ord, PartialOrd, Eq, PartialEq, Hash, Debug)]
pub enum TypeRef {
    Primitive(PrimitiveType),
    Named(AsciiString),
}

impl TypeRef {
    /// A reference to the declaration called `name`.
    pub fn named(name: &'static str) -> (r: TypeRef)
        requires
            valid_ascii_name(name@),
        ensures
            r.spec_text() == name@,
            r is Named,
    {
        TypeRef::Named(AsciiString::from_str(name))
    }

    /// The textual form.
    pub open spec fn spec_text(&self) -> Seq<char> {
        match self {
            TypeRef::Primitive(p) => p.spec_text(),
            TypeRef::Named(name) => name@,
        }
    }

    /// Renders the textual form.
    pub fn to_string(&self) -> (s: String)
        ensures
            s@ == self.spec_text(),
    {
        match self {
            TypeRef::Primitive(p) => p.to_string(),
            TypeRef::Named(name) => String::from_str(name.as_str()),
        }
    }
}

/// The type of a map's keys.
#[derive(Copy, Clone, Ord, PartialOrd, Eq, PartialEq, Hash, Debug)]
pub enum KeyType {
    Primitive(PrimitiveType),
    /// An array of the given length over a primitive.
    Array(u16, PrimitiveType),
}

impl KeyType {
    /// The textual form.
    pub open spec fn spec_text(&self) -> Seq<char> {
        match self {
            KeyType::Primitive(p) => p.spec_text(),
            KeyType::Array(len, p) => p.spec_text() + "["@ + decimal(*len as nat) + "]"@,
        }
    }

    /// Renders the textual form.
    pub fn to_string(&self) -> (s: String)
        ensures
            s@ == self.spec_text(),
    {
        match self {
            KeyType::Primitive(p) => p.to_string(),
            KeyType::Array(len, p) => {
                let mut out = p.to_string();
                out.append("[");
                push_decimal(&mut out, *len as u128);
                out.append("]");
                out
            },
        }
    }
}

/// The ways in which a type is made from another.
pub enum TypeConstr<T> {
    Plain(T),
    Array(u16, T),
    List(T),
    SetOf(T),
    MapOf(KeyType, T),
}

/// The type of a field.
#[derive(Clone, Ord, PartialOrd, Eq, PartialEq, Hash, Debug)]
pub enum DataType {
    Primitive(PrimitiveType),
    Union(TypeRef),
    Struct(TypeRef),
    Array(u16, TypeRef),
    List(TypeRef),
    MapOf(KeyType, TypeRef),
}

impl DataType {
    /// The textual form: the referred type, `T[len]` for an array, `T*` for a
    /// list, `{K} -> T` for a map.
    pub open spec fn spec_text(&self) -> Seq<char> {
        match self {
            DataType::Primitive(p) => p.spec_text(),
            DataType::Union(ty) => ty.spec_text(),
            DataType::Struct(ty) => ty.spec_text(),
            DataType::Array(size, ty) => ty.spec_text() + "["@ + decimal(*size as nat) + "]"@,
            DataType::List(ty) => ty.spec_text() + "*"@,
            DataType::MapOf(key, ty) => "{"@ + key.spec_text() + "} -> "@ + ty.spec_text(),
        }
    }

    /// Renders the textual form.
    pub fn to_string(&self) -> (s: String)
        ensures
            s@ == self.spec_text(),
    {
        match self {
            DataType::Primitive(p) => p.to_string(),
            DataType::Union(ty) => ty.to_string(),
            DataType::Struct(ty) => ty.to_string(),
            DataType::Array(size, ty) => {
                let mut out = ty.to_string();
                out.append("[");
                push_decimal(&mut out, *size as u128);
                out.append("]");
                out
            },
            DataType::List(ty) => {
                let mut out = ty.to_string();
                out.append("*");
                out
            },
            DataType::MapOf(key, ty) => {
                let mut out = String::from_str("{");
                let key_text = key.to_string();
                out.append(key_text.as_str());
                out.append("} -> ");
                let ty_text = ty.to_string();
                out.append(ty_text.as_str());
                out
            },
        }
    }
}

/// A field of a structure: its type, and whether a value may be absent.
#[derive(Clone, Ord, PartialOrd, Eq, PartialEq, Hash, Debug)]
pub struct StructField {
    pub ty: DataType,
    pub optional: bool,
}

impl StructField {
    /// A field whose type is the structure declared as `name`.
    pub fn new(name: &'static str) -> (r: StructField)
        requires
            valid_ascii_name(name@),
        ensures
            r.ty matches DataType::Struct(ty) && ty is Named && ty.spec_text() == name@,
            !r.optional,
    {
        StructField { ty: DataType::Struct(TypeRef::named(name)), optional: false }
    }

    /// A field of a primitive type.
    pub fn primitive(prim: PrimitiveType) -> (r: StructField)
        ensures
            r.ty == DataType::Primitive(prim),
            !r.optional,
    {
        StructField { ty: DataType::Primitive(prim), optional: false }
    }

    /// A field that holds a list of the referred type.
    pub fn list(ty: TypeRef) -> (r: StructField)
        ensures
            r.ty == DataType::List(ty),
            !r.optional,
    {
        StructField { ty: DataType::List(ty), optional: false }
    }

    /// A field that holds an array of `size` primitives.
    pub fn array(prim: PrimitiveType, size: u16) -> (r: StructField)
        ensures
            r.ty == DataType::Array(size, TypeRef::Primitive(prim)),
            !r.optional,
    {
        StructField { ty: DataType::Array(size, TypeRef::Primitive(prim)), optional: false }
    }

    /// A field of the given type whose value may be absent.
    pub fn optional(ty: DataType) -> (r: StructField)
        ensures
            r.ty == ty,
            r.optional,
    {
        StructField { ty, optional: true }
    }

    /// The textual form: the type, and `?` behind it where a value may be
    /// absent.
    pub open spec fn spec_text(&self) -> Seq<char> {
        if self.optional {
            self.ty.spec_text() + "?"@
        } else {
            self.ty.spec_text()
        }
    }

    /// Renders the textual form.
    pub fn to_string(&self) -> (s: String)
        ensures
            s@ == self.spec_text(),
    {
        let mut out = self.ty.to_string();
        if self.optional {
            out.append("?");
        }
        out
    }
}

/// The texts of the first `n` fields, with `, ` between them.
pub open spec fn fields_text(fields: Seq<StructField>, n: int) -> Seq<char>
    decreases n,
{
    if n <= 0 {
        Seq::empty()
    } else if n == 1 {
        fields[0].spec_text()
    } else {
        fields_text(fields, n - 1) + ", "@ + fields[n - 1].spec_text()
    }
}

/// A structure: its fields in order, one at least.
#[derive(Clone, Ord, PartialOrd, Eq, PartialEq, Hash, Debug)]
pub struct StructType(pub Vec<StructField>);

impl StructType {
    /// A structure has one field at least.
    pub open spec fn wf(&self) -> bool {
        self.0@.len() >= 1
    }

    /// The textual form.
    pub open spec fn spec_text(&self) -> Seq<char> {
        fields_text(self.0@, self.0@.len() as int)
    }

    /// Renders the textual form.
    pub fn to_string(&self) -> (s: String)
        ensures
            s@ == self.spec_text(),
    {
        let mut out = String::new();
        let mut pos: usize = 0;
        while pos < self.0.len()
            invariant
                pos <= self.0.len(),
                out@ == fields_text(self.0@, pos as int),
            decreases self.0.len() - pos,
        {
            if pos > 0 {
                out.append(", ");
            }
            let text = self.0[pos].to_string();
            out.append(text.as_str());
            pos += 1;
        }
        out
    }
}

/// The names of the first `n` primitives, with ` | ` between them.
pub open spec fn alternatives_text(items: Seq<PrimitiveType>, n: int) -> Seq<char>
    decreases n,
{
    if n <= 0 {
        Seq::empty()
    } else if n == 1 {
        items[0].spec_text()
    } else {
        alternatives_text(items, n - 1) + " | "@ + items[n - 1].spec_text()
    }
}

/// A union of primitives: two at least, each once, in the order of their
/// codes.
#[derive(Clone, Ord, PartialOrd, Eq, PartialEq, Hash, Debug)]
pub struct UnionType(pub Vec<PrimitiveType>);

impl UnionType {
    /// The invariants of the type.
    pub open spec fn wf(&self) -> bool {
        &&& self.0@.len() >= 2
        &&& forall|i: int, j: int|
            0 <= i < j < self.0@.len() ==> self.0@[i].spec_code() < self.0@[j].spec_code()
    }

    /// The textual form.
    pub open spec fn spec_text(&self) -> Seq<char> {
        alternatives_text(self.0@, self.0@.len() as int)
    }

    /// Renders the textual form.
    pub fn to_string(&self) -> (s: String)
        ensures
            s@ == self.spec_text(),
    {
        let mut out = String::new();
        let mut pos: usize = 0;
        while pos < self.0.len()
            invariant
                pos <= self.0.len(),
                out@ == alternatives_text(self.0@, pos as int),
            decreases self.0.len() - pos,
        {
            if pos > 0 {
                out.append(" | ");
            }
            out.append(self.0[pos].as_str());
            pos += 1;
        }
        out
    }
}

/// A declaration: a name, and the structure that it stands for.
#[derive(Clone, Ord, PartialOrd, Eq, PartialEq, Hash, Debug)]
pub struct TypeDecl {
    pub name: TypeRef,
    pub ty: StructType,
}

impl TypeDecl {
    /// The declaration of the structure `ty` under `name`.
    pub fn new(name: &'static str, ty: StructType) -> (r: TypeDecl)
        requires
            valid_ascii_name(name@),
        ensures
            r.name is Named,
            r.name.spec_text() == name@,
            r.ty == ty,
    {
        TypeDecl { name: TypeRef::named(name), ty }
    }

    /// The textual form: the name, ` :: `, the structure.
    pub open spec fn spec_text(&self) -> Seq<char> {
        self.name.spec_text() + " :: "@ + self.ty.spec_text()
    }

    /// Renders the textual form.
    pub fn to_string(&self) -> (s: String)
        ensures
            s@ == self.spec_text(),
    {
        let mut out = self.name.to_string();
        out.append(" :: ");
        let text = self.ty.to_string();
        out.append(text.as_str());
        out
    }
}

/// The texts of the first `n` declarations, each on a line of its own.
pub open spec fn decls_text(decls: Seq<TypeDecl>, n: int) -> Seq<char>
    decreases n,
{
    if n <= 0 {
        Seq::empty()
    } else {
        decls_text(decls, n - 1) + decls[n - 1].spec_text() + "\n"@
    }
}

/// A type system: declarations in order.
#[derive(Clone, Ord, PartialOrd, Eq, PartialEq, Hash, Debug)]
pub struct TypeSystem(pub Vec<TypeDecl>);

impl TypeSystem {
    /// The textual form.
    pub open spec fn spec_text(&self) -> Seq<char> {
        decls_text(self.0@, self.0@.len() as int)
    }

    /// Renders the textual form.
    pub fn to_string(&self) -> (s: String)
        ensures
            s@ == self.spec_text(),
    {
        let mut out = String::new();
        let mut pos: usize = 0;
        while pos < self.0.len()
            invariant
                pos <= self.0.len(),
                out@ == decls_text(self.0@, pos as int),
            decreases self.0.len() - pos,
        {
            let text = self.0[pos].to_string();
            out.append(text.as_str());
            out.append("\n");
            pos += 1;
        }
        out
    }
}

} // verus!
