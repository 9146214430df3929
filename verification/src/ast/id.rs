//! Semantic identifiers: a tagged SHA-256 hash over the bytes that commit to
//! a type's variant, its name, the names and ordinals in it and the
//! identifiers of the types nested in it.

use vstd::prelude::*;
use vstd::string::*;
use crate::ast::ty::{tags_of, position_of_ord, find_ord, Field, KeyTy, Tag, Tagged, Ty};
use crate::schema::PrimitiveType;
use crate::render::{hex_byte_upper, push_hex_byte_upper};
use crate::util::{Ident, Sizing, TypeName};

verus! {

/// The SHA-256 digest of `data`: 32 bytes.
pub uninterp spec fn sha256_digest(data: Seq<u8>) -> Seq<u8>;

/// Calls `sha2::Sha256::digest`. The contract names what it returns: the
/// SHA-256 digest of the bytes of `data`, which is a function of those bytes
/// alone.
#[verifier::external_body]
fn sha256(data: &[u8]) -> (r: [u8; 32])
    ensures
        r@ == sha256_digest(data@),
{
    <sha2::Sha256 as sha2::Digest>::digest(data).into()
}

/// The text whose digest separates the identifiers of this crate from other
/// uses of SHA-256.
pub const LIB_ID_TAG: &'static str = "urn:ubideco:strict-types:lib:v01";

/// The bytes of the tag.
pub open spec fn tag_bytes() -> Seq<u8> {
    LIB_ID_TAG.spec_bytes()
}

/// What is hashed for `content`: the digest of the tag, twice, and then
/// `content`.
pub open spec fn tagged(content: Seq<u8>) -> Seq<u8> {
    sha256_digest(tag_bytes()) + sha256_digest(tag_bytes()) + content
}

/// The tagged hash of `content`: the digest of the tag's digest, twice, and
/// then `content`.
pub open spec fn tagged_hash(content: Seq<u8>) -> Seq<u8> {
    sha256_digest(tagged(content))
}

/// SHA-256 gives two different inputs the same digest.
pub open spec fn sha256_collides(a: Seq<u8>, b: Seq<u8>) -> bool {
    a != b && sha256_digest(a) == sha256_digest(b)
}

/// Appends `bytes` to `buf`.
pub fn push_all(buf: &mut Vec<u8>, bytes: &[u8])
    ensures
        final(buf)@ == old(buf)@ + bytes@,
{
    let mut i: usize = 0;
    while i < bytes.len()
        invariant
            i <= bytes.len(),
            buf@ == old(buf)@ + bytes@.subrange(0, i as int),
        decreases bytes.len() - i,
    {
        buf.push(bytes[i]);
        assert(bytes@.subrange(0, i + 1) == bytes@.subrange(0, i as int).push(bytes@[i as int]));
        i += 1;
    }
    assert(bytes@.subrange(0, bytes@.len() as int) == bytes@);
}

/// Computes the tagged hash of `content`.
pub fn tagged_sha256(content: &Vec<u8>) -> (r: [u8; 32])
    ensures
        r@ == tagged_hash(content@),
{
    let tag = sha256(LIB_ID_TAG.as_bytes());
    let mut buf: Vec<u8> = Vec::new();
    push_all(&mut buf, tag.as_slice());
    push_all(&mut buf, tag.as_slice());
    push_all(&mut buf, content.as_slice());
    assert(buf@ == sha256_digest(tag_bytes()) + sha256_digest(tag_bytes()) + content@);
    sha256(buf.as_slice())
}

/// The semantic identifier of a type: 32 bytes.
#[derive(Copy, Clone, Ord, PartialOrd, Eq, PartialEq, Hash, Debug)]
pub struct SemId(pub [u8; 32]);

impl View for SemId {
    type V = Seq<u8>;

    open spec fn view(&self) -> Seq<u8> {
        self.0@
    }
}

impl SemId {
    /// The identifier that holds the given bytes.
    pub fn from_bytes(bytes: [u8; 32]) -> (r: SemId)
        ensures
            r@ == bytes@,
    {
        SemId(bytes)
    }

    /// The bytes of the identifier.
    pub fn as_slice(&self) -> (r: &[u8])
        ensures
            r@ == self@,
    {
        self.0.as_slice()
    }

    /// Whether the two identifiers hold the same bytes.
    pub fn same(&self, other: &SemId) -> (r: bool)
        ensures
            r == (self@ == other@),
    {
        let mut i: usize = 0;
        while i < 32
            invariant
                i <= 32,
                forall|j: int| 0 <= j < i ==> self@[j] == other@[j],
            decreases 32 - i,
        {
            if self.0[i] != other.0[i] {
                return false;
            }
            i += 1;
        }
        assert(self@ =~= other@);
        true
    }
}

/// The name that is made for a type without one: `Auto` and the first four
/// bytes of its identifier as eight hexadecimal digits in upper case.
pub open spec fn auto_name(id: Seq<u8>) -> Seq<char> {
    "Auto"@ + hex_byte_upper(id[0]) + hex_byte_upper(id[1]) + hex_byte_upper(id[2])
        + hex_byte_upper(id[3])
}

impl SemId {
    /// Makes a name for the type with this identifier.
    pub fn auto_ident(&self) -> (r: Ident)
        ensures
            r@ == auto_name(self@),
    {
        let mut text = String::from_str("Auto");
        push_hex_byte_upper(&mut text, self.0[0]);
        push_hex_byte_upper(&mut text, self.0[1]);
        push_hex_byte_upper(&mut text, self.0[2]);
        push_hex_byte_upper(&mut text, self.0[3]);
        proof {
            reveal_strlit("Auto");
            assert(text@ =~= auto_name(self@));
            assert(text@.len() == 12);
            assert forall|i: int| 0 <= i < text@.len() implies crate::util::is_ident_char(
                #[trigger] text@[i],
            ) by {
                if i >= 4 {
                    let b = self.0@[(i - 4) / 2];
                    assert(text@[i] == hex_byte_upper(b)[(i - 4) % 2]);
                }
            }
        }
        Ident::from_str(text.as_str())
    }
}

/// The byte that tells the variant of a type: that of a primitive.
pub const CLS_PRIMITIVE: u8 = 0;

/// The byte of an enumeration.
pub const CLS_ENUM: u8 = 1;

/// The byte of a union.
pub const CLS_UNION: u8 = 2;

/// The byte of a structure.
pub const CLS_STRUCT: u8 = 3;

/// The byte of an array.
pub const CLS_ARRAY: u8 = 4;

/// The byte of a list.
pub const CLS_LIST: u8 = 5;

/// The byte of a set.
pub const CLS_SET: u8 = 6;

/// The byte of a map.
pub const CLS_MAP: u8 = 7;

/// The byte of a unicode string.
pub const CLS_UNICODE: u8 = 8;

/// The byte of an ASCII string, which stands among the key types only.
pub const CLS_ASCII: u8 = 9;

/// A 16-bit number, low byte first.
pub open spec fn le_u16(v: u16) -> Seq<u8> {
    seq![(v % 256) as u8, (v / 256) as u8]
}

/// Sizing bounds: the lower one, then the upper one.
pub open spec fn sizing_bytes(sizing: Sizing) -> Seq<u8> {
    le_u16(sizing.min) + le_u16(sizing.max)
}

/// The bytes of an ASCII text.
pub open spec fn text_bytes(text: Seq<char>) -> Seq<u8> {
    Seq::new(text.len(), |i: int| text[i] as u8)
}

/// A name: its length in one byte, then its bytes.
pub open spec fn name_bytes(name: Seq<char>) -> Seq<u8> {
    seq![name.len() as u8] + text_bytes(name)
}

/// A name that may be absent: one byte that tells whether it is there, then
/// the name.
pub open spec fn opt_name_bytes(name: Option<Seq<char>>) -> Seq<u8> {
    match name {
        Some(n) => seq![1u8] + name_bytes(n),
        None => seq![0u8],
    }
}

/// What the item with the ordinal `ord` commits to: the ordinal, the name,
/// and the identifier of its type where `ids` holds one for it. Nothing where
/// no item has that ordinal.
pub open spec fn entry_bytes(tags: Seq<Tag>, ids: Seq<Seq<u8>>, ord: u8) -> Seq<u8> {
    match position_of_ord(tags, ord, 0) {
        Some(i) => seq![ord] + opt_name_bytes(tags[i].name) + (if i < ids.len() {
            ids[i]
        } else {
            Seq::empty()
        }),
        None => Seq::empty(),
    }
}

/// The entries of the items with ordinals below `upto`, by ordinal.
pub open spec fn entries_bytes(tags: Seq<Tag>, ids: Seq<Seq<u8>>, upto: int) -> Seq<u8>
    decreases upto,
{
    if upto <= 0 {
        Seq::empty()
    } else {
        entries_bytes(tags, ids, upto - 1) + entry_bytes(tags, ids, (upto - 1) as u8)
    }
}

/// Variants, alternatives or fields: their number in one byte (256 as 0),
/// then their entries by ordinal.
pub open spec fn tagged_bytes(tags: Seq<Tag>, ids: Seq<Seq<u8>>) -> Seq<u8> {
    seq![(tags.len() % 256) as u8] + entries_bytes(tags, ids, 256)
}

/// The views of identifiers.
pub open spec fn id_views(ids: Seq<SemId>) -> Seq<Seq<u8>> {
    ids.map_values(|id: SemId| id@)
}

impl PrimitiveType {
    /// The bytes that a primitive commits to.
    pub open spec fn commitment(&self) -> Seq<u8> {
        seq![CLS_PRIMITIVE, self.spec_code()]
    }

    /// The identifier of the primitive as a type without a name.
    pub fn primitive_id(&self) -> (r: SemId)
        ensures
            r@ == tagged_hash(self.commitment()),
    {
        let mut buf: Vec<u8> = Vec::new();
        buf.push(CLS_PRIMITIVE);
        buf.push(self.code());
        assert(buf@ =~= self.commitment());
        SemId(tagged_sha256(&buf))
    }
}

impl KeyTy {
    /// The bytes that a key type commits to. They are those of the type that
    /// it stands for: a primitive, an array or a list of `U8`, a unicode
    /// string. An ASCII string, which no type stands for, commits to a byte of
    /// its own and to its sizing.
    pub open spec fn commitment(&self) -> Seq<u8> {
        match self {
            KeyTy::Primitive(p) => p.commitment(),
            KeyTy::Array(len) => seq![CLS_ARRAY] + tagged_hash(PrimitiveType::U8.commitment())
                + le_u16(*len),
            KeyTy::UnicodeStr(sizing) => seq![CLS_UNICODE] + sizing_bytes(*sizing),
            KeyTy::AsciiStr(sizing) => seq![CLS_ASCII] + sizing_bytes(*sizing),
            KeyTy::Bytes(sizing) => seq![CLS_LIST] + tagged_hash(PrimitiveType::U8.commitment())
                + sizing_bytes(*sizing),
        }
    }

    /// The identifier of a key type.
    pub open spec fn spec_id(&self) -> Seq<u8> {
        tagged_hash(self.commitment())
    }

    /// Computes the identifier of the key type.
    pub fn key_id(&self) -> (r: SemId)
        ensures
            r@ == self.spec_id(),
    {
        let mut buf: Vec<u8> = Vec::new();
        match self {
            KeyTy::Primitive(p) => {
                buf.push(CLS_PRIMITIVE);
                buf.push(p.code());
            },
            KeyTy::Array(len) => {
                buf.push(CLS_ARRAY);
                let item = PrimitiveType::U8.primitive_id();
                push_all(&mut buf, item.as_slice());
                push_le_u16(&mut buf, *len);
            },
            KeyTy::UnicodeStr(sizing) => {
                buf.push(CLS_UNICODE);
                push_sizing(&mut buf, sizing);
            },
            KeyTy::AsciiStr(sizing) => {
                buf.push(CLS_ASCII);
                push_sizing(&mut buf, sizing);
            },
            KeyTy::Bytes(sizing) => {
                buf.push(CLS_LIST);
                let item = PrimitiveType::U8.primitive_id();
                push_all(&mut buf, item.as_slice());
                push_sizing(&mut buf, sizing);
            },
        }
        assert(buf@ =~= self.commitment());
        SemId(tagged_sha256(&buf))
    }
}

impl<R> Ty<R> {
    /// The byte that tells the variant.
    pub open spec fn spec_cls(&self) -> u8 {
        match self {
            Ty::Primitive(_) => CLS_PRIMITIVE,
            Ty::Enum(_) => CLS_ENUM,
            Ty::Union(_) => CLS_UNION,
            Ty::Struct(_) => CLS_STRUCT,
            Ty::Array(_, _) => CLS_ARRAY,
            Ty::List(_, _) => CLS_LIST,
            Ty::SetOf(_, _) => CLS_SET,
            Ty::MapOf(_, _, _) => CLS_MAP,
            Ty::Unicode(_) => CLS_UNICODE,
        }
    }

    /// The byte that tells the variant.
    pub fn cls(&self) -> (c: u8)
        ensures
            c == self.spec_cls(),
    {
        match self {
            Ty::Primitive(_) => CLS_PRIMITIVE,
            Ty::Enum(_) => CLS_ENUM,
            Ty::Union(_) => CLS_UNION,
            Ty::Struct(_) => CLS_STRUCT,
            Ty::Array(_, _) => CLS_ARRAY,
            Ty::List(_, _) => CLS_LIST,
            Ty::SetOf(_, _) => CLS_SET,
            Ty::MapOf(_, _, _) => CLS_MAP,
            Ty::Unicode(_) => CLS_UNICODE,
        }
    }

    /// What follows the variant and the name, where `ids` holds the
    /// identifiers of the nested types in the order of `refs`.
    pub open spec fn body_bytes(&self, ids: Seq<Seq<u8>>) -> Seq<u8> {
        match self {
            Ty::Primitive(p) => seq![p.spec_code()],
            Ty::Enum(_) => tagged_bytes(self.tags(), Seq::empty()),
            Ty::Union(_) => tagged_bytes(self.tags(), ids),
            Ty::Struct(_) => tagged_bytes(self.tags(), ids),
            Ty::Array(_, len) => ids[0] + le_u16(*len),
            Ty::List(_, sizing) => ids[0] + sizing_bytes(*sizing),
            Ty::SetOf(_, sizing) => ids[0] + sizing_bytes(*sizing),
            Ty::MapOf(key, _, sizing) => key.spec_id() + ids[0] + sizing_bytes(*sizing),
            Ty::Unicode(sizing) => sizing_bytes(*sizing),
        }
    }

    /// The bytes that the type commits to under the name `name`: the variant,
    /// the name where there is one, and the body.
    pub open spec fn commitment_with(&self, name: Option<Seq<char>>, ids: Seq<Seq<u8>>) -> Seq<
        u8,
    > {
        seq![self.spec_cls()] + (match name {
            Some(n) => name_bytes(n),
            None => Seq::empty(),
        }) + self.body_bytes(ids)
    }

    /// Computes the identifier of the type from the identifiers of the types
    /// nested in it.
    pub fn id_with(&self, name: Option<&TypeName>, ids: &Vec<SemId>) -> (r: SemId)
        requires
            ids@.len() == self.refs().len(),
        ensures
            r@ == tagged_hash(
                self.commitment_with(
                    match name {
                        Some(n) => Some(n@),
                        None => None,
                    },
                    id_views(ids@),
                ),
            ),
    {
        let mut buf: Vec<u8> = Vec::new();
        buf.push(self.cls());
        match name {
            Some(n) => {
                push_name(&mut buf, n);
            },
            None => {},
        }
        let ghost head = buf@;
        match self {
            Ty::Primitive(p) => {
                buf.push(p.code());
            },
            Ty::Enum(variants) => {
                push_tagged(&mut buf, variants, None);
            },
            Ty::Union(fields) => {
                push_tagged(&mut buf, fields, Some(ids));
            },
            Ty::Struct(fields) => {
                push_tagged(&mut buf, fields, Some(ids));
            },
            Ty::Array(_, len) => {
                push_all(&mut buf, ids[0].as_slice());
                push_le_u16(&mut buf, *len);
            },
            Ty::List(_, sizing) => {
                push_all(&mut buf, ids[0].as_slice());
                push_sizing(&mut buf, sizing);
            },
            Ty::SetOf(_, sizing) => {
                push_all(&mut buf, ids[0].as_slice());
                push_sizing(&mut buf, sizing);
            },
            Ty::MapOf(key, _, sizing) => {
                let key_id = key.key_id();
                push_all(&mut buf, key_id.as_slice());
                push_all(&mut buf, ids[0].as_slice());
                push_sizing(&mut buf, sizing);
            },
            Ty::Unicode(sizing) => {
                push_sizing(&mut buf, sizing);
            },
        }
        assert(buf@ =~= head + self.body_bytes(id_views(ids@)));
        SemId(tagged_sha256(&buf))
    }
}

/// Appends a 16-bit number, low byte first.
pub fn push_le_u16(buf: &mut Vec<u8>, v: u16)
    ensures
        final(buf)@ == old(buf)@ + le_u16(v),
{
    buf.push((v % 256) as u8);
    buf.push((v / 256) as u8);
    assert(buf@ =~= old(buf)@ + le_u16(v));
}

/// Appends sizing bounds.
pub fn push_sizing(buf: &mut Vec<u8>, sizing: &Sizing)
    ensures
        final(buf)@ == old(buf)@ + sizing_bytes(*sizing),
{
    push_le_u16(buf, sizing.min);
    push_le_u16(buf, sizing.max);
    assert(buf@ =~= old(buf)@ + sizing_bytes(*sizing));
}

/// Appends a name behind its length.
pub fn push_name(buf: &mut Vec<u8>, name: &TypeName)
    ensures
        final(buf)@ == old(buf)@ + name_bytes(name@),
{
    broadcast use vstd::string::group_string_axioms;

    let text = name.as_str();
    assert(text.is_ascii()) by {
        assert forall|i: int| 0 <= i < text@.len() implies '\0' <= #[trigger] text@[i]
            <= '\u{7f}' by {
            assert(crate::util::is_ident_char(text@[i]));
        }
    }
    buf.push(name.len());
    push_all(buf, text.as_bytes());
    assert(text.spec_bytes() =~= text_bytes(name@));
    assert(buf@ =~= old(buf)@ + name_bytes(name@));
}

/// Appends a name that may be absent.
pub fn push_opt_name(buf: &mut Vec<u8>, name: Option<&TypeName>)
    ensures
        final(buf)@ == old(buf)@ + opt_name_bytes(
            match name {
                Some(n) => Some(n@),
                None => None,
            },
        ),
{
    match name {
        Some(n) => {
            buf.push(1u8);
            push_name(buf, n);
            assert(buf@ =~= old(buf)@ + (seq![1u8] + name_bytes(n@)));
        },
        None => {
            buf.push(0u8);
            assert(buf@ =~= old(buf)@ + seq![0u8]);
        },
    }
}

/// Appends the number of the items and their entries by ordinal. Where
/// `ids` is given it holds one identifier for each item.
pub fn push_tagged<T: Tagged>(buf: &mut Vec<u8>, items: &Vec<T>, ids: Option<&Vec<SemId>>)
    requires
        ids matches Some(ids) ==> ids@.len() == items@.len(),
    ensures
        final(buf)@ == old(buf)@ + tagged_bytes(
            tags_of(items@),
            match ids {
                Some(ids) => id_views(ids@),
                None => Seq::empty(),
            },
        ),
{
    let ghost tags = tags_of(items@);
    let ghost views = match ids {
        Some(ids) => id_views(ids@),
        None => Seq::empty(),
    };
    buf.push((items.len() % 256) as u8);
    let ghost head = buf@;
    let mut next: u16 = 0;
    while next < 256
        invariant
            next <= 256,
            tags == tags_of(items@),
            views == (match ids {
                Some(ids) => id_views(ids@),
                None => Seq::empty(),
            }),
            ids matches Some(ids) ==> ids@.len() == items@.len(),
            buf@ == head + entries_bytes(tags, views, next as int),
        decreases 256 - next,
    {
        let ord = next as u8;
        let ghost before = buf@;
        match find_ord(items, ord) {
            Some(i) => {
                buf.push(ord);
                push_opt_name(buf, items[i].name());
                match ids {
                    Some(ids) => {
                        push_all(buf, ids[i].as_slice());
                    },
                    None => {},
                }
                assert(buf@ =~= before + entry_bytes(tags, views, ord));
            },
            None => {
                assert(buf@ =~= before + entry_bytes(tags, views, ord));
            },
        }
        next += 1;
    }
}

/// A reference to a nested type: it has an identifier of its own.
pub trait TypeRef: Sized {
    /// The identifier of the type that the reference stands for.
    spec fn sem_id(&self) -> Seq<u8>;

    fn id(&self) -> (r: SemId)
        ensures
            r@ == self.sem_id(),
    ;
}

/// The identifiers of the references in `refs`, in their order.
pub open spec fn ref_ids<R: TypeRef>(refs: Seq<R>) -> Seq<Seq<u8>> {
    refs.map_values(|r: R| r.sem_id())
}

impl<R: TypeRef> Ty<R> {
    /// The bytes that the type commits to under the name `name`.
    pub open spec fn commitment(&self, name: Option<Seq<char>>) -> Seq<u8> {
        self.commitment_with(name, ref_ids(self.refs()))
    }

    /// The semantic identifier of the type under the name `name`.
    pub open spec fn spec_id(&self, name: Option<Seq<char>>) -> Seq<u8> {
        tagged_hash(self.commitment(name))
    }

    /// Computes the semantic identifier of the type: of a named type with its
    /// name, of an inline type without one.
    pub fn id(&self, name: Option<&TypeName>) -> (r: SemId)
        ensures
            r@ == self.spec_id(
                match name {
                    Some(n) => Some(n@),
                    None => None,
                },
            ),
    {
        let mut ids: Vec<SemId> = Vec::new();
        match self {
            Ty::Union(fields) => {
                field_ids(fields, &mut ids);
            },
            Ty::Struct(fields) => {
                field_ids(fields, &mut ids);
            },
            Ty::Array(r, _) => {
                ids.push(r.id());
            },
            Ty::List(r, _) => {
                ids.push(r.id());
            },
            Ty::SetOf(r, _) => {
                ids.push(r.id());
            },
            Ty::MapOf(_, r, _) => {
                ids.push(r.id());
            },
            _ => {},
        }
        assert(id_views(ids@) =~= ref_ids(self.refs()));
        self.id_with(name, &ids)
    }
}

/// Collects the identifiers of the types of `fields`.
fn field_ids<R: TypeRef>(fields: &Vec<Field<R>>, ids: &mut Vec<SemId>)
    requires
        old(ids)@.len() == 0,
    ensures
        id_views(final(ids)@) == ref_ids(fields@.map_values(|f: Field<R>| f.ty)),
{
    let mut i: usize = 0;
    while i < fields.len()
        invariant
            i <= fields.len(),
            ids@.len() == i,
            forall|j: int| 0 <= j < i ==> ids@[j]@ == fields@[j].ty.sem_id(),
        decreases fields.len() - i,
    {
        ids.push(fields[i].ty.id());
        i += 1;
    }
    assert(id_views(ids@) =~= ref_ids(fields@.map_values(|f: Field<R>| f.ty)));
}

impl TypeRef for KeyTy {
    open spec fn sem_id(&self) -> Seq<u8> {
        self.spec_id()
    }

    fn id(&self) -> (r: SemId) {
        self.key_id()
    }
}

} // verus!
