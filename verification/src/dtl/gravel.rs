//! Gravel: a data type library that may refer to the types of other
//! libraries.

use vstd::prelude::*;
use vstd::string::*;
use crate::ast::id::push_all;
use crate::ast::path::NestedRef;
use crate::ast::sten::lemma_refs_decrease;
use crate::ast::text::RefText;
use crate::ast::ty::Ty;
use crate::dtl::{blake3_keyed, blake3_keyed_hash, data_lines, data_string, ids_bytes, zero_key, IdSet, TyId};
use crate::ord_map::OrdMap;
use crate::render::{hex_text, push_hex_text};
use crate::typelib::id::{id_mnemonic, id_mnemonic_string};
use crate::typelib::type_lib::{extern_text, inline_text, MAX_DEPENDENCIES, MAX_TYPES};
use crate::util::{Ident, SemVer, TypeName};

verus! {

/// The alias of a library.
pub type GravelAlias = Ident;

/// The name of a library.
pub type GravelName = Ident;

/// A reference to a nested type: by name, the type itself, or by name and
/// the alias of another library.
#[derive(Eq, PartialEq, Debug)]
pub enum GravelTy {
    Name(TypeName),
    Inline(Box<Ty<GravelTy>>),
    Extern(TypeName, GravelAlias),
}

impl NestedRef for GravelTy {
    open spec fn nested(&self) -> Option<Ty<GravelTy>> {
        match self {
            GravelTy::Inline(ty) => Some(**ty),
            _ => None,
        }
    }

    fn as_ty(&self) -> (r: Option<&Ty<GravelTy>>) {
        match self {
            GravelTy::Name(_) => None,
            GravelTy::Inline(ty) => Some(&**ty),
            GravelTy::Extern(_, _) => None,
        }
    }
}

impl GravelTy {
    /// The type that the reference holds, if it holds one.
    pub fn into_ty(self) -> (r: Option<Ty<GravelTy>>)
        ensures
            r == self.nested(),
    {
        match self {
            GravelTy::Name(_) => None,
            GravelTy::Inline(ty) => Some(*ty),
            GravelTy::Extern(_, _) => None,
        }
    }
}

/// The textual form of a reference: the name; the type, in parentheses
/// where it is compound; or the alias, a dot and the name.
pub open spec fn gravel_ref_text(r: GravelTy) -> Seq<char>
    decreases r, 0int,
{
    match r {
        GravelTy::Name(name) => name@,
        GravelTy::Inline(ty) => inline_text(
            *ty,
            ty.text_with(gravel_ref_texts(*ty, ty.refs().len() as int)),
        ),
        GravelTy::Extern(name, alias) => extern_text(name@, alias@),
    }
}

/// The textual forms of the first `n` types nested in `ty`.
pub open spec fn gravel_ref_texts(ty: Ty<GravelTy>, n: int) -> Seq<Seq<char>>
    decreases ty, n,
{
    if n <= 0 || n > ty.refs().len() {
        Seq::empty()
    } else {
        proof {
            lemma_refs_decrease(ty, n - 1);
        }
        gravel_ref_texts(ty, n - 1).push(gravel_ref_text(ty.refs()[n - 1]))
    }
}

/// Renders a reference.
pub fn gravel_ref_string(r: &GravelTy) -> (s: String)
    ensures
        s@ == gravel_ref_text(*r),
    decreases r, 0int,
{
    match r {
        GravelTy::Name(name) => name.to_string(),
        GravelTy::Inline(ty) => {
            let texts = gravel_ref_strings(ty);
            let text = ty.string_with(&texts);
            if ty.is_compound() {
                let mut out = String::from_str("(");
                out.append(text.as_str());
                out.append(")");
                out
            } else {
                text
            }
        },
        GravelTy::Extern(name, alias) => {
            let mut out = alias.to_string();
            out.append(".");
            out.append(name.as_str());
            out
        },
    }
}

/// Renders the types nested in `ty`.
fn gravel_ref_strings(ty: &Ty<GravelTy>) -> (texts: Vec<String>)
    ensures
        texts@.len() == ty.refs().len(),
        texts@.map_values(|t: String| t@) == gravel_ref_texts(*ty, ty.refs().len() as int),
    decreases ty, 1int,
{
    let mut texts: Vec<String> = Vec::new();
    match ty {
        Ty::Union(fields) => {
            let mut i: usize = 0;
            while i < fields.len()
                invariant
                    i <= fields.len(),
                    *ty == Ty::<GravelTy>::Union(*fields),
                    texts@.len() == i,
                    texts@.map_values(|t: String| t@) == gravel_ref_texts(*ty, i as int),
                decreases fields.len() - i,
            {
                proof {
                    lemma_refs_decrease(*ty, i as int);
                }
                texts.push(gravel_ref_string(&fields[i].ty));
                assert(texts@.map_values(|t: String| t@) =~= gravel_ref_texts(*ty, i + 1));
                i += 1;
            }
        },
        Ty::Struct(fields) => {
            let mut i: usize = 0;
            while i < fields.len()
                invariant
                    i <= fields.len(),
                    *ty == Ty::<GravelTy>::Struct(*fields),
                    texts@.len() == i,
                    texts@.map_values(|t: String| t@) == gravel_ref_texts(*ty, i as int),
                decreases fields.len() - i,
            {
                proof {
                    lemma_refs_decrease(*ty, i as int);
                }
                texts.push(gravel_ref_string(&fields[i].ty));
                assert(texts@.map_values(|t: String| t@) =~= gravel_ref_texts(*ty, i + 1));
                i += 1;
            }
        },
        Ty::Array(r, _) => {
            texts.push(gravel_ref_string(r));
            assert(gravel_ref_texts(*ty, 0) =~= Seq::empty());
            assert(texts@.map_values(|t: String| t@) =~= gravel_ref_texts(*ty, 1));
        },
        Ty::List(r, _) => {
            texts.push(gravel_ref_string(r));
            assert(gravel_ref_texts(*ty, 0) =~= Seq::empty());
            assert(texts@.map_values(|t: String| t@) =~= gravel_ref_texts(*ty, 1));
        },
        Ty::SetOf(r, _) => {
            texts.push(gravel_ref_string(r));
            assert(gravel_ref_texts(*ty, 0) =~= Seq::empty());
            assert(texts@.map_values(|t: String| t@) =~= gravel_ref_texts(*ty, 1));
        },
        Ty::MapOf(_, r, _) => {
            texts.push(gravel_ref_string(r));
            assert(gravel_ref_texts(*ty, 0) =~= Seq::empty());
            assert(texts@.map_values(|t: String| t@) =~= gravel_ref_texts(*ty, 1));
        },
        _ => {
            assert(texts@.map_values(|t: String| t@) =~= gravel_ref_texts(*ty, 0));
        },
    }
    texts
}

impl RefText for GravelTy {
    open spec fn spec_text(&self) -> Seq<char> {
        gravel_ref_text(*self)
    }

    fn to_string(&self) -> (s: String) {
        gravel_ref_string(self)
    }
}

/// The identifier of a gravel: 32 bytes.
#[derive(Copy, Clone, Ord, PartialOrd, Eq, PartialEq, Hash, Debug)]
pub struct GravelId(pub [u8; 32]);

impl View for GravelId {
    type V = Seq<u8>;

    open spec fn view(&self) -> Seq<u8> {
        self.0@
    }
}

impl GravelId {
    /// The textual form: the bytes as hexadecimal digits.
    pub open spec fn spec_text(&self) -> Seq<char> {
        hex_text(self@, 32)
    }

    /// The alternate textual form: the textual form, `#`, and the words of
    /// the identifier.
    pub open spec fn spec_alt_text(&self) -> Seq<char> {
        self.spec_text() + "#"@ + id_mnemonic(self@)
    }

    /// Renders the textual form.
    pub fn to_string(&self) -> (s: String)
        ensures
            s@ == self.spec_text(),
    {
        let mut out = String::new();
        push_hex_text(&mut out, self.0.as_slice());
        out
    }

    /// Renders the alternate textual form.
    pub fn to_alt_string(&self) -> (s: String)
        ensures
            s@ == self.spec_alt_text(),
    {
        let mut out = self.to_string();
        out.append("#");
        let words = id_mnemonic_string(&self.0);
        out.append(words.as_str());
        out
    }
}

/// The key under which the identifiers of gravels are hashed: 32 zero
/// bytes.
pub fn gravel_id_tag() -> (r: [u8; 32])
    ensures
        r@ == zero_key(),
{
    let r = [0u8; 32];
    assert(r@ =~= zero_key());
    r
}

/// Collects identifiers of types and hashes them into the identifier of a
/// gravel.
#[derive(Debug)]
pub struct Hasher {
    input: Vec<u8>,
}

impl View for Hasher {
    type V = Seq<u8>;

    /// The bytes that have gone in.
    closed spec fn view(&self) -> Seq<u8> {
        self.input@
    }
}

impl Hasher {
    /// A hasher that has taken nothing in yet.
    pub fn new() -> (r: Hasher)
        ensures
            r@ == Seq::<u8>::empty(),
    {
        Hasher { input: Vec::new() }
    }

    /// Takes the bytes of an identifier in.
    pub fn input(&mut self, id: TyId)
        ensures
            final(self)@ == old(self)@ + id@,
    {
        push_all(&mut self.input, id.as_slice());
    }

    /// The keyed hash of all that has gone in.
    pub fn finish(self) -> (r: GravelId)
        ensures
            r@ == blake3_keyed_hash(zero_key(), self@),
    {
        let key = gravel_id_tag();
        GravelId(blake3_keyed(&key, self.input.as_slice()))
    }
}

/// A gravel that a gravel depends on.
#[derive(Clone, PartialEq, Eq, Debug)]
pub struct Dependency {
    pub id: GravelId,
    pub name: GravelName,
    pub ver: SemVer,
}

impl Dependency {
    /// The textual form: `typelib`, the name, `@`, the version, and the
    /// identifier in its alternate form.
    pub open spec fn spec_text(&self) -> Seq<char> {
        "typelib "@ + self.name@ + "@"@ + self.ver.spec_text() + " "@ + self.id.spec_alt_text()
    }

    /// Renders the textual form.
    pub fn to_string(&self) -> (s: String)
        ensures
            s@ == self.spec_text(),
    {
        let mut out = String::from_str("typelib ");
        out.append(self.name.as_str());
        out.append("@");
        let ver = self.ver.to_string();
        out.append(ver.as_str());
        out.append(" ");
        let id = self.id.to_alt_string();
        out.append(id.as_str());
        out
    }
}

/// A gravel: the identifiers of its root types, the gravels that it depends
/// on under their aliases, and its types under their names.
#[derive(Debug)]
pub struct Gravel {
    pub roots: IdSet,
    pub dependencies: OrdMap<Dependency>,
    pub types: OrdMap<Ty<GravelTy>>,
}

impl Gravel {
    /// A gravel holds no more than 255 dependencies, and from 1 to 65535
    /// types.
    pub open spec fn wf(&self) -> bool {
        self.dependencies@.len() <= MAX_DEPENDENCIES && 1 <= self.types@.len() <= MAX_TYPES
    }

    /// The identifier of the gravel: the keyed hash of the identifiers of
    /// its root types in their order.
    pub open spec fn spec_id(&self) -> Seq<u8> {
        blake3_keyed_hash(zero_key(), ids_bytes(self.roots@, self.roots@.len() as int))
    }

    /// Computes the identifier of the gravel.
    pub fn id(&self) -> (r: GravelId)
        ensures
            r@ == self.spec_id(),
    {
        let mut hasher = Hasher::new();
        let mut i: usize = 0;
        while i < self.roots.len()
            invariant
                i <= self.roots@.len(),
                hasher@ == ids_bytes(self.roots@, i as int),
            decreases self.roots@.len() - i,
        {
            hasher.input(self.roots.get(i));
            i += 1;
        }
        hasher.finish()
    }

    /// The textual form: the lines of the types in the order of their
    /// names.
    pub open spec fn spec_text(&self) -> Seq<char> {
        data_lines(self.types@, self.types@.len() as int)
    }

    /// Renders the textual form.
    pub fn to_string(&self) -> (s: String)
        ensures
            s@ == self.spec_text(),
    {
        data_string(&self.types)
    }
}

} // verus!
