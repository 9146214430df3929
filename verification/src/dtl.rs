//! Data type libraries: types that refer to each other by name alone, under
//! an identifier that is a keyed BLAKE3 hash over the identifiers of the
//! root types.

use vstd::prelude::*;
use vstd::string::*;
use crate::ast::id::{push_all, SemId};
use crate::ast::path::NestedRef;
use crate::ast::sten::{desc_id, desc_sem_id, lemma_refs_decrease, StenType};
use crate::ast::text::RefText;
use crate::ast::ty::{clone_name, clone_variants, tags_of, Field, Tagged, Ty};
use crate::ord_map::{lemma_sorted_same_keys, strictly_sorted, Entry, OrdMap};
use crate::render::{hex_text, push_hex_text};
use crate::typelib::builder::{desc_defines, desc_names, index_desc, same_shape};
use crate::typelib::id::{id_mnemonic, id_mnemonic_string};
use crate::typelib::text::padded;
use crate::typelib::type_lib::{id_map, inline_text, TranslateError, TypeIndex, MAX_TYPES};
use crate::util::{
    lemma_lex_irreflexive, lemma_lex_total, lemma_lex_transitive, lex_lt, lex_lt_at, common_prefix,
    ConfinementError, TypeName,
};

pub mod gravel;

verus! {

/// The identifier of a type.
pub type TyId = SemId;

/// The keyed BLAKE3 hash of `data` under `key`: 32 bytes.
pub uninterp spec fn blake3_keyed_hash(key: Seq<u8>, data: Seq<u8>) -> Seq<u8>;

/// Calls `blake3::keyed_hash`. The contract names what it returns: the
/// keyed hash of the bytes of `data` under the key, which is a function of
/// the two alone. The crate documents that hashing in one call gives what a
/// keyed hasher gives that is fed the same bytes piece by piece.
#[verifier::external_body]
pub(crate) fn blake3_keyed(key: &[u8; 32], data: &[u8]) -> (r: [u8; 32])
    ensures
        r@ == blake3_keyed_hash(key@, data@),
{
    *blake3::keyed_hash(key, data).as_bytes()
}

/// The key of the hash: 32 zero bytes.
pub open spec fn zero_key() -> Seq<u8> {
    Seq::new(32, |i: int| 0u8)
}

/// The key under which the identifiers of libraries are hashed.
pub fn setl_id_tag() -> (r: [u8; 32])
    ensures
        r@ == zero_key(),
{
    let r = [0u8; 32];
    assert(r@ =~= zero_key());
    r
}

/// Bytes as characters, so that sequences of bytes are ordered as names
/// are.
pub open spec fn as_chars(bytes: Seq<u8>) -> Seq<char> {
    bytes.map_values(|b: u8| b as char)
}

/// The order of identifiers: byte by byte.
pub open spec fn bytes_lt(a: Seq<u8>, b: Seq<u8>) -> bool {
    lex_lt(as_chars(a), as_chars(b))
}

/// Whether the identifier `a` comes before `b`.
pub fn id_less(a: &TyId, b: &TyId) -> (r: bool)
    ensures
        r == bytes_lt(a@, b@),
{
    let ghost ca = as_chars(a@);
    let ghost cb = as_chars(b@);
    let mut i: usize = 0;
    while i < 32 && a.0[i] == b.0[i]
        invariant
            i <= 32,
            ca == as_chars(a@),
            cb == as_chars(b@),
            common_prefix(ca, cb, i as int),
        decreases 32 - i,
    {
        i += 1;
    }
    let r = i < 32 && a.0[i] < b.0[i];
    proof {
        if r {
            assert(ca[i as int] == a@[i as int] as char);
            assert(cb[i as int] == b@[i as int] as char);
            assert(lex_lt_at(ca, cb, i as int));
        } else {
            assert forall|k: int| !lex_lt_at(ca, cb, k) by {
                if lex_lt_at(ca, cb, k) {
                    if k > i {
                        assert(ca[i as int] == cb[i as int]);
                    } else if k == i {
                        assert(ca[i as int] == a@[i as int] as char);
                        assert(cb[i as int] == b@[i as int] as char);
                    }
                }
            }
        }
    }
    r
}

/// The identifiers of `ids` as sequences of bytes.
pub open spec fn id_bytes(ids: Seq<TyId>) -> Seq<Seq<u8>> {
    ids.map_values(|id: TyId| id@)
}

/// Each identifier comes before all the identifiers behind it.
pub open spec fn ids_sorted(ids: Seq<TyId>) -> bool {
    forall|i: int, j: int| 0 <= i < j < ids.len() ==> bytes_lt(#[trigger] ids[i]@, #[trigger] ids[j]@)
}

/// Identifiers that hold the same bytes are the same as characters, and
/// only those.
proof fn lemma_as_chars_injective(a: TyId, b: TyId)
    ensures
        as_chars(a@) == as_chars(b@) <==> a@ == b@,
{
    if as_chars(a@) == as_chars(b@) {
        assert forall|i: int| 0 <= i < 32 implies a@[i] == b@[i] by {
            assert(as_chars(a@)[i] == a@[i] as char);
            assert(as_chars(b@)[i] == b@[i] as char);
        }
        assert(a@ =~= b@);
    }
}

/// A set of identifiers, held in their order.
#[derive(Eq, PartialEq, Debug)]
pub struct IdSet {
    ids: Vec<TyId>,
}

impl View for IdSet {
    type V = Seq<TyId>;

    closed spec fn view(&self) -> Seq<TyId> {
        self.ids@
    }
}

impl IdSet {
    /// The identifiers stand in their strict order.
    #[verifier::type_invariant]
    pub open spec fn wf(&self) -> bool {
        ids_sorted(self@)
    }

    /// Whether the set holds the identifier with the bytes `id`.
    pub open spec fn has(&self, id: Seq<u8>) -> bool {
        id_bytes(self@).contains(id)
    }

    /// The set without identifiers.
    pub fn new() -> (r: IdSet)
        ensures
            r@.len() == 0,
    {
        IdSet { ids: Vec::new() }
    }

    /// The set of one identifier.
    pub fn with(id: TyId) -> (r: IdSet)
        ensures
            r@ == seq![id],
    {
        let mut ids: Vec<TyId> = Vec::new();
        ids.push(id);
        IdSet { ids }
    }

    /// The number of items.
    pub fn len(&self) -> (n: usize)
        ensures
            n == self@.len(),
    {
        self.ids.len()
    }

    /// The identifier at position `i` in the order of the identifiers.
    pub fn get(&self, i: usize) -> (id: TyId)
        requires
            i < self@.len(),
        ensures
            id == self@[i as int],
    {
        self.ids[i]
    }

    /// Puts an identifier into the set, at the place that the order gives
    /// it, unless the set holds it already. Tells whether the set has grown.
    pub fn insert(&mut self, id: TyId) -> (r: bool)
        ensures
            final(self).wf(),
            r == !old(self).has(id@),
            !r ==> final(self)@ == old(self)@,
            r ==> exists|i: int|
                0 <= i <= old(self)@.len() && final(self)@ == old(self)@.insert(i, id),
            forall|b: Seq<u8>| final(self).has(b) <==> old(self).has(b) || b == id@,
    {
        proof {
            use_type_invariant(&*self);
        }
        let ghost before = self@;
        let mut ids: Vec<TyId> = Vec::new();
        core::mem::swap(&mut ids, &mut self.ids);
        let mut i: usize = 0;
        while i < ids.len() && id_less(&ids[i], &id)
            invariant
                i <= ids.len(),
                ids@ == before,
                ids_sorted(before),
                forall|j: int| 0 <= j < i ==> bytes_lt(#[trigger] before[j]@, id@),
            decreases ids.len() - i,
        {
            i += 1;
        }
        let found = i < ids.len() && ids[i].same(&id);
        proof {
            assert forall|j: int| i <= j < before.len() implies !bytes_lt(
                #[trigger] before[j]@,
                id@,
            ) by {
                if j > i && bytes_lt(before[j]@, id@) {
                    assert(bytes_lt(before[i as int]@, before[j]@));
                    lemma_lex_transitive(
                        as_chars(before[i as int]@),
                        as_chars(before[j]@),
                        as_chars(id@),
                    );
                }
            }
            assert forall|j: int| 0 <= j < before.len() && j != i implies before[j]@ != id@ by {
                if before[j]@ == id@ {
                    lemma_lex_irreflexive(as_chars(id@));
                }
            }
        }
        if found {
            proof {
                assert(id_bytes(before)[i as int] == id@);
            }
            *self = IdSet { ids };
            false
        } else {
            proof {
                if i < before.len() {
                    lemma_as_chars_injective(before[i as int], id);
                }
                assert(!id_bytes(before).contains(id@)) by {
                    if id_bytes(before).contains(id@) {
                        let j = choose|j: int|
                            0 <= j < id_bytes(before).len() && id_bytes(before)[j] == id@;
                        assert(before[j]@ == id@);
                        lemma_lex_irreflexive(as_chars(id@));
                    }
                }
            }
            ids.insert(i, id);
            proof {
                let after = ids@;
                assert forall|x: int, y: int| 0 <= x < y < after.len() implies bytes_lt(
                    #[trigger] after[x]@,
                    #[trigger] after[y]@,
                ) by {
                    if y < i {
                        assert(bytes_lt(before[x]@, before[y]@));
                    } else if y == i {
                        assert(bytes_lt(before[x]@, id@));
                    } else {
                        let other = before[y - 1];
                        lemma_lex_total(as_chars(id@), as_chars(other@));
                        lemma_as_chars_injective(id, other);
                        assert(bytes_lt(id@, other@));
                        if x < i {
                            assert(bytes_lt(before[x]@, id@));
                            lemma_lex_transitive(
                                as_chars(before[x]@),
                                as_chars(id@),
                                as_chars(other@),
                            );
                        } else if x > i {
                            assert(bytes_lt(before[x - 1]@, before[y - 1]@));
                        }
                    }
                }
                assert forall|b: Seq<u8>| id_bytes(after).contains(b) <==> id_bytes(
                    before,
                ).contains(b) || b == id@ by {
                    if id_bytes(after).contains(b) {
                        let j = choose|j: int|
                            0 <= j < id_bytes(after).len() && id_bytes(after)[j] == b;
                        if j < i {
                            assert(id_bytes(before)[j] == b);
                        } else if j > i {
                            assert(id_bytes(before)[j - 1] == b);
                        }
                    }
                    if id_bytes(before).contains(b) {
                        let j = choose|j: int|
                            0 <= j < id_bytes(before).len() && id_bytes(before)[j] == b;
                        if j < i {
                            assert(id_bytes(after)[j] == b);
                        } else {
                            assert(id_bytes(after)[j + 1] == b);
                        }
                    }
                    if b == id@ {
                        assert(id_bytes(after)[i as int] == b);
                    }
                }
            }
            *self = IdSet { ids };
            true
        }
    }
}

/// The identifier of a data type library: 32 bytes.
#[derive(Copy, Clone, Ord, PartialOrd, Eq, PartialEq, Hash, Debug)]
pub struct LibId(pub [u8; 32]);

impl View for LibId {
    type V = Seq<u8>;

    open spec fn view(&self) -> Seq<u8> {
        self.0@
    }
}

impl LibId {
    /// The textual form: `urn:ubideco:setl:` and the bytes as hexadecimal
    /// digits.
    pub open spec fn spec_text(&self) -> Seq<char> {
        "urn:ubideco:setl:"@ + hex_text(self@, 32)
    }

    /// The alternate textual form: the textual form, `#`, and the words of
    /// the identifier.
    pub open spec fn spec_alt_text(&self) -> Seq<char> {
        self.spec_text() + "#"@ + id_mnemonic(self@)
    }

    /// Renders the textual form.
    pub fn to_string(&self) -> (s: String)
        ensures
            s@ == self.spec_text(),
    {
        let mut out = String::from_str("urn:ubideco:setl:");
        push_hex_text(&mut out, self.0.as_slice());
        out
    }

    /// Renders the alternate textual form.
    pub fn to_alt_string(&self) -> (s: String)
        ensures
            s@ == self.spec_alt_text(),
    {
        let mut out = self.to_string();
        out.append("#");
        let words = id_mnemonic_string(&self.0);
        out.append(words.as_str());
        out
    }
}

/// Collects identifiers of types and hashes them into the identifier of a
/// library.
#[derive(Debug)]
pub struct LibHasher {
    input: Vec<u8>,
}

impl View for LibHasher {
    type V = Seq<u8>;

    /// The bytes that have gone in.
    closed spec fn view(&self) -> Seq<u8> {
        self.input@
    }
}

impl LibHasher {
    /// A hasher that has taken nothing in yet.
    pub fn new() -> (r: LibHasher)
        ensures
            r@ == Seq::<u8>::empty(),
    {
        LibHasher { input: Vec::new() }
    }

    /// Takes the bytes of an identifier in.
    pub fn input(&mut self, id: TyId)
        ensures
            final(self)@ == old(self)@ + id@,
    {
        push_all(&mut self.input, id.as_slice());
    }

    /// The keyed hash of all that has gone in.
    pub fn finish(self) -> (r: LibId)
        ensures
            r@ == blake3_keyed_hash(zero_key(), self@),
    {
        let key = setl_id_tag();
        LibId(blake3_keyed(&key, self.input.as_slice()))
    }
}

/// The bytes of the first `n` identifiers, one after the other.
pub open spec fn ids_bytes(ids: Seq<TyId>, n: int) -> Seq<u8>
    decreases n,
{
    if n <= 0 {
        Seq::empty()
    } else {
        ids_bytes(ids, n - 1) + ids[n - 1]@
    }
}

/// A reference to a nested type: by name, or the type itself.
#[derive(Eq, PartialEq, Debug)]
pub enum InlineRef {
    Name(TypeName),
    Inline(Box<Ty<InlineRef>>),
}

impl NestedRef for InlineRef {
    open spec fn nested(&self) -> Option<Ty<InlineRef>> {
        match self {
            InlineRef::Name(_) => None,
            InlineRef::Inline(ty) => Some(**ty),
        }
    }

    fn as_ty(&self) -> (r: Option<&Ty<InlineRef>>) {
        match self {
            InlineRef::Name(_) => None,
            InlineRef::Inline(ty) => Some(&**ty),
        }
    }
}

/// The textual form of a reference: the name, or the type, in parentheses
/// where it is compound.
pub open spec fn inline_ref_text(r: InlineRef) -> Seq<char>
    decreases r, 0int,
{
    match r {
        InlineRef::Name(name) => name@,
        InlineRef::Inline(ty) => inline_text(
            *ty,
            ty.text_with(inline_ref_texts(*ty, ty.refs().len() as int)),
        ),
    }
}

/// The textual forms of the first `n` types nested in `ty`.
pub open spec fn inline_ref_texts(ty: Ty<InlineRef>, n: int) -> Seq<Seq<char>>
    decreases ty, n,
{
    if n <= 0 || n > ty.refs().len() {
        Seq::empty()
    } else {
        proof {
            lemma_refs_decrease(ty, n - 1);
        }
        inline_ref_texts(ty, n - 1).push(inline_ref_text(ty.refs()[n - 1]))
    }
}

/// Renders a reference.
pub fn inline_ref_string(r: &InlineRef) -> (s: String)
    ensures
        s@ == inline_ref_text(*r),
    decreases r, 0int,
{
    match r {
        InlineRef::Name(name) => name.to_string(),
        InlineRef::Inline(ty) => {
            let texts = inline_ref_strings(ty);
            let text = ty.string_with(&texts);
            if ty.is_compound() {
                let mut out = String::from_str("(");
                out.append(text.as_str());
                out.append(")");
                out
            } else {
                text
            }
        },
    }
}

/// Renders the types nested in `ty`.
fn inline_ref_strings(ty: &Ty<InlineRef>) -> (texts: Vec<String>)
    ensures
        texts@.len() == ty.refs().len(),
        texts@.map_values(|t: String| t@) == inline_ref_texts(*ty, ty.refs().len() as int),
    decreases ty, 1int,
{
    let mut texts: Vec<String> = Vec::new();
    match ty {
        Ty::Union(fields) => {
            let mut i: usize = 0;
            while i < fields.len()
                invariant
                    i <= fields.len(),
                    *ty == Ty::<InlineRef>::Union(*fields),
                    texts@.len() == i,
                    texts@.map_values(|t: String| t@) == inline_ref_texts(*ty, i as int),
                decreases fields.len() - i,
            {
                proof {
                    lemma_refs_decrease(*ty, i as int);
                }
                texts.push(inline_ref_string(&fields[i].ty));
                assert(texts@.map_values(|t: String| t@) =~= inline_ref_texts(*ty, i + 1));
                i += 1;
            }
        },
        Ty::Struct(fields) => {
            let mut i: usize = 0;
            while i < fields.len()
                invariant
                    i <= fields.len(),
                    *ty == Ty::<InlineRef>::Struct(*fields),
                    texts@.len() == i,
                    texts@.map_values(|t: String| t@) == inline_ref_texts(*ty, i as int),
                decreases fields.len() - i,
            {
                proof {
                    lemma_refs_decrease(*ty, i as int);
                }
                texts.push(inline_ref_string(&fields[i].ty));
                assert(texts@.map_values(|t: String| t@) =~= inline_ref_texts(*ty, i + 1));
                i += 1;
            }
        },
        Ty::Array(r, _) => {
            texts.push(inline_ref_string(r));
            assert(inline_ref_texts(*ty, 0) =~= Seq::empty());
            assert(texts@.map_values(|t: String| t@) =~= inline_ref_texts(*ty, 1));
        },
        Ty::List(r, _) => {
            texts.push(inline_ref_string(r));
            assert(inline_ref_texts(*ty, 0) =~= Seq::empty());
            assert(texts@.map_values(|t: String| t@) =~= inline_ref_texts(*ty, 1));
        },
        Ty::SetOf(r, _) => {
            texts.push(inline_ref_string(r));
            assert(inline_ref_texts(*ty, 0) =~= Seq::empty());
            assert(texts@.map_values(|t: String| t@) =~= inline_ref_texts(*ty, 1));
        },
        Ty::MapOf(_, r, _) => {
            texts.push(inline_ref_string(r));
            assert(inline_ref_texts(*ty, 0) =~= Seq::empty());
            assert(texts@.map_values(|t: String| t@) =~= inline_ref_texts(*ty, 1));
        },
        _ => {
            assert(texts@.map_values(|t: String| t@) =~= inline_ref_texts(*ty, 0));
        },
    }
    texts
}

impl RefText for InlineRef {
    open spec fn spec_text(&self) -> Seq<char> {
        inline_ref_text(*self)
    }

    fn to_string(&self) -> (s: String) {
        inline_ref_string(self)
    }
}

/// The line of a type: `data`, the name in a column 16 wide, `::` and the
/// textual form of the type.
pub open spec fn data_line<R: RefText>(entry: Entry<Ty<R>>) -> Seq<char> {
    "data "@ + padded(entry.key@) + " :: "@ + entry.value.spec_text() + "\n"@
}

/// The lines of the first `n` types.
pub open spec fn data_lines<R: RefText>(types: Seq<Entry<Ty<R>>>, n: int) -> Seq<char>
    decreases n,
{
    if n <= 0 {
        Seq::empty()
    } else {
        data_lines(types, n - 1) + data_line(types[n - 1])
    }
}

/// Renders the lines of the types in the order of their names.
pub fn data_string<R: RefText>(types: &OrdMap<Ty<R>>) -> (s: String)
    ensures
        s@ == data_lines(types@, types@.len() as int),
{
    let mut out = String::new();
    let mut i: usize = 0;
    while i < types.len()
        invariant
            i <= types@.len(),
            out@ == data_lines(types@, i as int),
        decreases types@.len() - i,
    {
        let entry = types.entry(i);
        out.append("data ");
        crate::typelib::text::push_padded(&mut out, &entry.key);
        out.append(" :: ");
        let text = entry.value.to_string();
        out.append(text.as_str());
        out.append("\n");
        assert(out@ =~= data_lines(types@, i + 1));
        i += 1;
    }
    out
}

/// A data type library: the identifiers of its root types, the index of
/// its types with a name, and those types under their names.
#[derive(Debug)]
pub struct TypeLib {
    pub roots: IdSet,
    pub index: TypeIndex,
    pub types: OrdMap<Ty<InlineRef>>,
}

impl TypeLib {
    /// A library holds from 1 to 65535 types.
    pub open spec fn wf(&self) -> bool {
        1 <= self.types@.len() <= MAX_TYPES
    }

    /// The identifier of the library: the keyed hash of the identifiers of
    /// its root types in their order.
    pub open spec fn spec_id(&self) -> Seq<u8> {
        blake3_keyed_hash(zero_key(), ids_bytes(self.roots@, self.roots@.len() as int))
    }

    /// Computes the identifier of the library.
    pub fn id(&self) -> (r: LibId)
        ensures
            r@ == self.spec_id(),
    {
        let mut hasher = LibHasher::new();
        let mut i: usize = 0;
        while i < self.roots.len()
            invariant
                i <= self.roots@.len(),
                hasher@ == ids_bytes(self.roots@, i as int),
            decreases self.roots@.len() - i,
        {
            hasher.input(self.roots.get(i));
            i += 1;
        }
        hasher.finish()
    }

    /// The textual form: the lines of the types in the order of their
    /// names.
    pub open spec fn spec_text(&self) -> Seq<char> {
        data_lines(self.types@, self.types@.len() as int)
    }

    /// Renders the textual form.
    pub fn to_string(&self) -> (s: String)
        ensures
            s@ == self.spec_text(),
    {
        data_string(&self.types)
    }
}

/// No type of another library stands in the description, at any depth.
pub open spec fn desc_local(d: StenType) -> bool
    decreases d,
{
    match d {
        StenType::Inline(ty) => forall|i: int|
            0 <= i < ty.refs().len() ==> {
                proof {
                    lemma_refs_decrease(*ty, i);
                }
                desc_local(#[trigger] ty.refs()[i])
            },
        StenType::Named(_, ty) => forall|i: int|
            0 <= i < ty.refs().len() ==> {
                proof {
                    lemma_refs_decrease(*ty, i);
                }
                desc_local(#[trigger] ty.refs()[i])
            },
        StenType::Extern(_, _, _) => false,
    }
}

/// The reference stands for the description: by name for a type with a
/// name, and for a type without one as the type of the same shape whose
/// nested types stand for those of the description.
pub open spec fn ref_matches(d: StenType, r: InlineRef) -> bool
    decreases d,
{
    match d {
        StenType::Named(name, _) => r == InlineRef::Name(name),
        StenType::Inline(ty) => r matches InlineRef::Inline(t) && same_shape(*ty, *t)
            && ty.refs().len() == t.refs().len() && forall|i: int|
            0 <= i < ty.refs().len() ==> {
                proof {
                    lemma_refs_decrease(*ty, i);
                }
                ref_matches(#[trigger] ty.refs()[i], t.refs()[i])
            },
        StenType::Extern(_, _, _) => false,
    }
}

/// The type stands for the definition: it has the same shape, and its
/// nested types stand for those of the definition.
pub open spec fn ty_matches(def: Ty<StenType>, t: Ty<InlineRef>) -> bool {
    &&& same_shape(def, t)
    &&& def.refs().len() == t.refs().len()
    &&& forall|i: int| 0 <= i < def.refs().len() ==> ref_matches(#[trigger] def.refs()[i], t.refs()[i])
}

/// No type of another library stands among the inline types of the
/// description: a type with a name ends the search.
pub open spec fn inline_local(d: StenType) -> bool
    decreases d,
{
    match d {
        StenType::Inline(ty) => forall|i: int|
            0 <= i < ty.refs().len() ==> {
                proof {
                    lemma_refs_decrease(*ty, i);
                }
                inline_local(#[trigger] ty.refs()[i])
            },
        StenType::Named(_, _) => true,
        StenType::Extern(_, _, _) => false,
    }
}

/// All the types nested in `ty` are free of types of other libraries as
/// far as they are inline.
pub open spec fn refs_local(ty: Ty<StenType>) -> bool {
    forall|i: int| 0 <= i < ty.refs().len() ==> inline_local(#[trigger] ty.refs()[i])
}

/// The alias of the first type of another library among the inline types
/// of the description, in their order; a type with a name ends the search.
pub open spec fn inline_foreign(d: StenType) -> Option<Seq<char>>
    decreases d, 0int,
{
    match d {
        StenType::Inline(ty) => refs_foreign(*ty, 0),
        StenType::Named(_, _) => None,
        StenType::Extern(_, alias, _) => Some(alias@),
    }
}

/// The first such alias among the types nested in `ty` from position `from`
/// on.
pub open spec fn refs_foreign(ty: Ty<StenType>, from: int) -> Option<Seq<char>>
    decreases ty, ty.refs().len() - from,
{
    if from < 0 || from >= ty.refs().len() {
        None
    } else {
        proof {
            lemma_refs_decrease(ty, from);
        }
        match inline_foreign(ty.refs()[from]) {
            Some(alias) => Some(alias),
            None => refs_foreign(ty, from + 1),
        }
    }
}

/// The alias of the first type of another library in the description, in
/// the order in which the description is gone through: of a type with a
/// name the inline types nested in it come first, then the types nested in
/// it are gone through in their order.
pub open spec fn desc_foreign(d: StenType) -> Option<Seq<char>>
    decreases d, 0int,
{
    match d {
        StenType::Inline(ty) => refs_all_foreign(*ty, 0),
        StenType::Named(_, ty) => match refs_foreign(*ty, 0) {
            Some(alias) => Some(alias),
            None => refs_all_foreign(*ty, 0),
        },
        StenType::Extern(_, alias, _) => Some(alias@),
    }
}

/// The first such alias among the types nested in `ty` from position `from`
/// on.
pub open spec fn refs_all_foreign(ty: Ty<StenType>, from: int) -> Option<Seq<char>>
    decreases ty, ty.refs().len() - from,
{
    if from < 0 || from >= ty.refs().len() {
        None
    } else {
        proof {
            lemma_refs_decrease(ty, from);
        }
        match desc_foreign(ty.refs()[from]) {
            Some(alias) => Some(alias),
            None => refs_all_foreign(ty, from + 1),
        }
    }
}

/// Where a type holds one nested type, the first alias among the nested
/// types is that of the one.
proof fn lemma_foreign_single(ty: Ty<StenType>)
    requires
        ty.refs().len() == 1,
    ensures
        refs_foreign(ty, 0) == inline_foreign(ty.refs()[0]),
        refs_all_foreign(ty, 0) == desc_foreign(ty.refs()[0]),
{
    assert(refs_foreign(ty, 1) is None);
    assert(refs_all_foreign(ty, 1) is None);
}

/// Whether the outcome is the one that the model gives: success where no
/// type of another library is found, else the error with the alias of the
/// first.
pub open spec fn foreign_outcome<T>(r: Result<T, TranslateError>, model: Option<Seq<char>>) -> bool {
    match r {
        Ok(_) => model is None,
        Err(e) => e matches TranslateError::UnknownDependency(alias) && model == Some(alias@),
    }
}

/// The names are those of the types with a name in the description, each
/// once, in their order.
pub open spec fn names_listed(d: StenType, names: Seq<Seq<char>>) -> bool {
    strictly_sorted(names) && forall|n: Seq<char>| names.contains(n) <==> desc_names(d, n)
}

/// Makes the reference that stands for a description.
pub fn name_ref(d: &StenType) -> (r: Result<InlineRef, TranslateError>)
    ensures
        match r {
            Ok(x) => inline_local(*d) && ref_matches(*d, x),
            Err(e) => !inline_local(*d) && e is UnknownDependency,
        },
        foreign_outcome(r, inline_foreign(*d)),
    decreases d, 0int,
{
    match d {
        StenType::Named(name, _) => Ok(InlineRef::Name(name.clone())),
        StenType::Inline(ty) => match name_refs(ty) {
            Ok(t) => Ok(InlineRef::Inline(Box::new(t))),
            Err(e) => Err(e),
        },
        StenType::Extern(_, alias, _) => Err(TranslateError::UnknownDependency(alias.clone())),
    }
}

/// Makes the fields that stand for the fields of a description.
fn name_fields(ty: &Ty<StenType>, fields: &Vec<Field<StenType>>) -> (r: Result<
    Vec<Field<InlineRef>>,
    TranslateError,
>)
    requires
        ty.refs() == fields@.map_values(|f: Field<StenType>| f.ty),
        forall|i: int| 0 <= i < fields@.len() ==> decreases_to!(*ty => #[trigger] fields@[i].ty),
    ensures
        match r {
            Ok(out) => {
                &&& refs_local(*ty)
                &&& tags_of(out@) == tags_of(fields@)
                &&& out@.len() == fields@.len()
                &&& forall|i: int|
                    0 <= i < out@.len() ==> ref_matches(fields@[i].ty, (#[trigger] out@[i]).ty)
            },
            Err(e) => !refs_local(*ty) && e is UnknownDependency,
        },
        foreign_outcome(r, refs_foreign(*ty, 0)),
    decreases ty, 0int,
{
    let mut out: Vec<Field<InlineRef>> = Vec::new();
    let mut i: usize = 0;
    while i < fields.len()
        invariant
            i <= fields.len(),
            out@.len() == i,
            ty.refs() == fields@.map_values(|f: Field<StenType>| f.ty),
            forall|i: int| 0 <= i < fields@.len() ==> decreases_to!(*ty => #[trigger] fields@[i].ty),
            forall|j: int| 0 <= j < i ==> inline_local(#[trigger] ty.refs()[j]),
            refs_foreign(*ty, 0) == refs_foreign(*ty, i as int),
            forall|j: int| 0 <= j < i ==> (#[trigger] out@[j]).tag() == fields@[j].tag(),
            forall|j: int| 0 <= j < i ==> ref_matches(fields@[j].ty, (#[trigger] out@[j]).ty),
        decreases fields.len() - i,
    {
        let field = &fields[i];
        assert(ty.refs()[i as int] == field.ty);
        match name_ref(&field.ty) {
            Ok(r) => {
                out.push(Field { name: clone_name(&field.name), ord: field.ord, ty: r });
            },
            Err(e) => {
                return Err(e);
            },
        }
        i += 1;
    }
    proof {
        assert(tags_of(out@) =~= tags_of(fields@));
    }
    Ok(out)
}

/// Makes the type that stands for a definition: the shape stays, and the
/// nested types become references, by name where they have one.
pub fn name_refs(ty: &Ty<StenType>) -> (r: Result<Ty<InlineRef>, TranslateError>)
    ensures
        match r {
            Ok(t) => refs_local(*ty) && ty_matches(*ty, t),
            Err(e) => !refs_local(*ty) && e is UnknownDependency,
        },
        foreign_outcome(r, refs_foreign(*ty, 0)),
    decreases ty, 1int,
{
    match ty {
        Ty::Primitive(p) => Ok(Ty::Primitive(*p)),
        Ty::Enum(variants) => Ok(Ty::Enum(clone_variants(variants))),
        Ty::Union(fields) => {
            proof {
                assert forall|i: int| 0 <= i < fields@.len() implies decreases_to!(*ty => #[trigger] fields@[i].ty) by {
                    lemma_refs_decrease(*ty, i);
                }
            }
            match name_fields(ty, fields) {
                Ok(out) => {
                    let t = Ty::Union(out);
                    assert(t.refs().len() == ty.refs().len());
                    Ok(t)
                },
                Err(e) => Err(e),
            }
        },
        Ty::Struct(fields) => {
            proof {
                assert forall|i: int| 0 <= i < fields@.len() implies decreases_to!(*ty => #[trigger] fields@[i].ty) by {
                    lemma_refs_decrease(*ty, i);
                }
            }
            match name_fields(ty, fields) {
                Ok(out) => {
                    let t = Ty::Struct(out);
                    assert(t.refs().len() == ty.refs().len());
                    Ok(t)
                },
                Err(e) => Err(e),
            }
        },
        Ty::Array(item, len) => {
            assert(ty.refs()[0] == *item);
            proof {
                lemma_foreign_single(*ty);
            }
            match name_ref(item) {
                Ok(r) => Ok(Ty::Array(r, *len)),
                Err(e) => Err(e),
            }
        },
        Ty::List(item, sizing) => {
            assert(ty.refs()[0] == *item);
            proof {
                lemma_foreign_single(*ty);
            }
            match name_ref(item) {
                Ok(r) => Ok(Ty::List(r, *sizing)),
                Err(e) => Err(e),
            }
        },
        Ty::SetOf(item, sizing) => {
            assert(ty.refs()[0] == *item);
            proof {
                lemma_foreign_single(*ty);
            }
            match name_ref(item) {
                Ok(r) => Ok(Ty::SetOf(r, *sizing)),
                Err(e) => Err(e),
            }
        },
        Ty::MapOf(key, item, sizing) => {
            assert(ty.refs()[0] == *item);
            proof {
                lemma_foreign_single(*ty);
            }
            match name_ref(item) {
                Ok(r) => Ok(Ty::MapOf(*key, r, *sizing)),
                Err(e) => Err(e),
            }
        },
        Ty::Unicode(sizing) => Ok(Ty::Unicode(*sizing)),
    }
}

/// The entry comes from the description: it stands for a definition that
/// the description gives under the name of the entry.
pub open spec fn entry_from(d: StenType, entry: Entry<Ty<InlineRef>>) -> bool {
    exists|def: Ty<StenType>| desc_defines(d, entry.key@, def) && ty_matches(def, entry.value)
}

/// Each entry stood there before or comes from the description.
pub open spec fn entries_from(
    d: StenType,
    before: Seq<Entry<Ty<InlineRef>>>,
    after: Seq<Entry<Ty<InlineRef>>>,
) -> bool {
    forall|i: int| 0 <= i < after.len() ==> before.contains(#[trigger] after[i]) || entry_from(d, after[i])
}

/// What comes from a type nested in the definition of a description comes
/// from the description.
proof fn lemma_entry_from_nested(d: StenType, i: int, entry: Entry<Ty<InlineRef>>)
    requires
        d matches StenType::Inline(ty) ==> 0 <= i < ty.refs().len() && entry_from(
            ty.refs()[i],
            entry,
        ),
        d matches StenType::Named(_, ty) ==> 0 <= i < ty.refs().len() && entry_from(
            ty.refs()[i],
            entry,
        ),
        !(d is Extern),
    ensures
        entry_from(d, entry),
{
    match d {
        StenType::Inline(ty) => {
            let def = choose|def: Ty<StenType>|
                desc_defines(ty.refs()[i], entry.key@, def) && ty_matches(def, entry.value);
            assert(desc_defines(d, entry.key@, def));
        },
        StenType::Named(_, ty) => {
            let def = choose|def: Ty<StenType>|
                desc_defines(ty.refs()[i], entry.key@, def) && ty_matches(def, entry.value);
            assert(desc_defines(d, entry.key@, def));
        },
        _ => {},
    }
}

/// Puts the type that stands for each definition with a name in the
/// description among the types, under that name.
fn add_defs(d: &StenType, types: &mut OrdMap<Ty<InlineRef>>) -> (r: Result<(), TranslateError>)
    ensures
        final(types).wf(),
        forall|n: Seq<char>| old(types).has(n) ==> final(types).has(n),
        forall|n: Seq<char>| final(types).has(n) ==> old(types).has(n) || desc_names(*d, n),
        entries_from(*d, old(types)@, final(types)@),
        match r {
            Ok(()) => desc_local(*d) && forall|n: Seq<char>|
                desc_names(*d, n) ==> final(types).has(n),
            Err(e) => !desc_local(*d) && e is UnknownDependency,
        },
        foreign_outcome(r, desc_foreign(*d)),
    decreases d, 0int,
{
    proof {
        use_type_invariant(&*types);
    }
    match d {
        StenType::Inline(ty) => {
            let r = add_nested_defs(ty, types);
            proof {
                assert forall|i: int| 0 <= i < types@.len() implies old(types)@.contains(
                    #[trigger] types@[i],
                ) || entry_from(*d, types@[i]) by {
                    if !old(types)@.contains(types@[i]) {
                        let k = choose|k: int|
                            0 <= k < ty.refs().len() && entry_from(
                                #[trigger] ty.refs()[k],
                                types@[i],
                            );
                        lemma_entry_from_nested(*d, k, types@[i]);
                    }
                }
            }
            r
        },
        StenType::Named(name, ty) => {
            match name_refs(ty) {
                Ok(t) => {
                    let ghost entry = Entry { key: *name, value: t };
                    let ghost before = types@;
                    types.insert(name.clone(), t);
                    let ghost mid = types@;
                    proof {
                        assert(desc_defines(*d, entry.key@, **ty) && ty_matches(
                            **ty,
                            entry.value,
                        ));
                        assert(entry_from(*d, entry));
                        assert forall|i: int| 0 <= i < mid.len() implies before.contains(
                            #[trigger] mid[i],
                        ) || mid[i] == entry by {
                            if mid.len() == before.len() {
                                let p = old(types).position(name@);
                                if i != p {
                                    assert(mid[i] == before[i]);
                                }
                            } else {
                                let p = choose|p: int|
                                    0 <= p <= before.len() && mid == before.insert(p, entry);
                                if i < p {
                                    assert(mid[i] == before[i]);
                                } else if i > p {
                                    assert(mid[i] == before[i - 1]);
                                }
                            }
                        }
                    }
                    let r = add_nested_defs(ty, types);
                    proof {
                        assert forall|i: int| 0 <= i < types@.len() implies old(
                            types,
                        )@.contains(#[trigger] types@[i]) || entry_from(*d, types@[i]) by {
                            if mid.contains(types@[i]) {
                                let j = choose|j: int| 0 <= j < mid.len() && mid[j] == types@[i];
                                assert(before.contains(mid[j]) || mid[j] == entry);
                            } else {
                                let k = choose|k: int|
                                    0 <= k < ty.refs().len() && entry_from(
                                        #[trigger] ty.refs()[k],
                                        types@[i],
                                    );
                                lemma_entry_from_nested(*d, k, types@[i]);
                            }
                        }
                    }
                    match r {
                        Ok(()) => Ok(()),
                        Err(e) => Err(e),
                    }
                },
                Err(e) => {
                    proof {
                        let i = choose|i: int|
                            0 <= i < ty.refs().len() && !inline_local(#[trigger] ty.refs()[i]);
                        lemma_not_local(ty.refs()[i]);
                    }
                    Err(e)
                },
            }
        },
        StenType::Extern(_, alias, _) => Err(TranslateError::UnknownDependency(alias.clone())),
    }
}

/// A description with a type of another library among its inline types has
/// one at some depth.
proof fn lemma_not_local(d: StenType)
    requires
        !inline_local(d),
    ensures
        !desc_local(d),
    decreases d,
{
    match d {
        StenType::Inline(ty) => {
            let i = choose|i: int|
                0 <= i < ty.refs().len() && !inline_local(#[trigger] ty.refs()[i]);
            lemma_refs_decrease(*ty, i);
            lemma_not_local(ty.refs()[i]);
        },
        _ => {},
    }
}

/// Does the same for each type nested in `ty`.
fn add_nested_defs(ty: &Ty<StenType>, types: &mut OrdMap<Ty<InlineRef>>) -> (r: Result<
    (),
    TranslateError,
>)
    ensures
        final(types).wf(),
        forall|n: Seq<char>| old(types).has(n) ==> final(types).has(n),
        forall|n: Seq<char>|
            final(types).has(n) ==> old(types).has(n) || exists|i: int|
                0 <= i < ty.refs().len() && desc_names(#[trigger] ty.refs()[i], n),
        forall|j: int|
            0 <= j < final(types)@.len() ==> old(types)@.contains(#[trigger] final(types)@[j])
                || exists|i: int|
                0 <= i < ty.refs().len() && entry_from(#[trigger] ty.refs()[i], final(types)@[j]),
        match r {
            Ok(()) => forall|i: int|
                0 <= i < ty.refs().len() ==> desc_local(#[trigger] ty.refs()[i]) && forall|
                    n: Seq<char>,
                | desc_names(ty.refs()[i], n) ==> final(types).has(n),
            Err(e) => e is UnknownDependency && exists|i: int|
                0 <= i < ty.refs().len() && !desc_local(#[trigger] ty.refs()[i]),
        },
        foreign_outcome(r, refs_all_foreign(*ty, 0)),
    decreases ty, 1int,
{
    proof {
        use_type_invariant(&*types);
    }
    match ty {
        Ty::Union(fields) => add_field_defs(ty, fields, types),
        Ty::Struct(fields) => add_field_defs(ty, fields, types),
        Ty::Array(r, _) => {
            assert(ty.refs()[0] == *r);
            proof {
                lemma_foreign_single(*ty);
            }
            add_defs(r, types)
        },
        Ty::List(r, _) => {
            assert(ty.refs()[0] == *r);
            proof {
                lemma_foreign_single(*ty);
            }
            add_defs(r, types)
        },
        Ty::SetOf(r, _) => {
            assert(ty.refs()[0] == *r);
            proof {
                lemma_foreign_single(*ty);
            }
            add_defs(r, types)
        },
        Ty::MapOf(_, r, _) => {
            assert(ty.refs()[0] == *r);
            proof {
                lemma_foreign_single(*ty);
            }
            add_defs(r, types)
        },
        _ => Ok(()),
    }
}

/// Does the same for the type of each field.
fn add_field_defs(
    ty: &Ty<StenType>,
    fields: &Vec<Field<StenType>>,
    types: &mut OrdMap<Ty<InlineRef>>,
) -> (r: Result<(), TranslateError>)
    requires
        ty.refs() == fields@.map_values(|f: Field<StenType>| f.ty),
        forall|i: int| 0 <= i < fields@.len() ==> decreases_to!(*ty => #[trigger] fields@[i].ty),
    ensures
        final(types).wf(),
        forall|n: Seq<char>| old(types).has(n) ==> final(types).has(n),
        forall|n: Seq<char>|
            final(types).has(n) ==> old(types).has(n) || exists|i: int|
                0 <= i < ty.refs().len() && desc_names(#[trigger] ty.refs()[i], n),
        forall|j: int|
            0 <= j < final(types)@.len() ==> old(types)@.contains(#[trigger] final(types)@[j])
                || exists|i: int|
                0 <= i < ty.refs().len() && entry_from(#[trigger] ty.refs()[i], final(types)@[j]),
        match r {
            Ok(()) => forall|i: int|
                0 <= i < ty.refs().len() ==> desc_local(#[trigger] ty.refs()[i]) && forall|
                    n: Seq<char>,
                | desc_names(ty.refs()[i], n) ==> final(types).has(n),
            Err(e) => e is UnknownDependency && exists|i: int|
                0 <= i < ty.refs().len() && !desc_local(#[trigger] ty.refs()[i]),
        },
        foreign_outcome(r, refs_all_foreign(*ty, 0)),
    decreases ty, 0int,
{
    proof {
        use_type_invariant(&*types);
    }
    let mut i: usize = 0;
    while i < fields.len()
        invariant
            i <= fields.len(),
            ty.refs() == fields@.map_values(|f: Field<StenType>| f.ty),
            forall|i: int| 0 <= i < fields@.len() ==> decreases_to!(*ty => #[trigger] fields@[i].ty),
            types.wf(),
            forall|n: Seq<char>| old(types).has(n) ==> types.has(n),
            forall|n: Seq<char>|
                types.has(n) ==> old(types).has(n) || exists|k: int|
                    0 <= k < ty.refs().len() && desc_names(#[trigger] ty.refs()[k], n),
            forall|j: int|
                0 <= j < types@.len() ==> old(types)@.contains(#[trigger] types@[j]) || exists|
                    k: int,
                | 0 <= k < ty.refs().len() && entry_from(#[trigger] ty.refs()[k], types@[j]),
            forall|k: int|
                0 <= k < i ==> desc_local(#[trigger] ty.refs()[k]) && forall|n: Seq<char>|
                    desc_names(ty.refs()[k], n) ==> types.has(n),
            refs_all_foreign(*ty, 0) == refs_all_foreign(*ty, i as int),
        decreases fields.len() - i,
    {
        assert(ty.refs()[i as int] == fields@[i as int].ty);
        let ghost mid = types@;
        let ghost mid_map = *types;
        match add_defs(&fields[i].ty, types) {
            Ok(()) => {},
            Err(e) => {
                proof {
                    assert forall|j: int| 0 <= j < types@.len() implies old(types)@.contains(
                        #[trigger] types@[j],
                    ) || exists|k: int|
                        0 <= k < ty.refs().len() && entry_from(
                            #[trigger] ty.refs()[k],
                            types@[j],
                        ) by {
                        if mid.contains(types@[j]) {
                            let q = choose|q: int| 0 <= q < mid.len() && mid[q] == types@[j];
                            assert(old(types)@.contains(mid[q]) || exists|k: int|
                                0 <= k < ty.refs().len() && entry_from(
                                    #[trigger] ty.refs()[k],
                                    mid[q],
                                ));
                        } else {
                            assert(entry_from(ty.refs()[i as int], types@[j]));
                        }
                    }
                    assert forall|n: Seq<char>| types.has(n) implies old(types).has(n) || exists|
                        k: int,
                    | 0 <= k < ty.refs().len() && desc_names(#[trigger] ty.refs()[k], n) by {
                        if !mid_map.has(n) {
                            assert(desc_names(ty.refs()[i as int], n));
                        }
                    }
                }
                return Err(e);
            },
        }
        proof {
            assert forall|j: int| 0 <= j < types@.len() implies old(types)@.contains(
                #[trigger] types@[j],
            ) || exists|k: int|
                0 <= k < ty.refs().len() && entry_from(#[trigger] ty.refs()[k], types@[j]) by {
                if mid.contains(types@[j]) {
                    let q = choose|q: int| 0 <= q < mid.len() && mid[q] == types@[j];
                    assert(old(types)@.contains(mid[q]) || exists|k: int|
                        0 <= k < ty.refs().len() && entry_from(#[trigger] ty.refs()[k], mid[q]));
                } else {
                    assert(entry_from(ty.refs()[i as int], types@[j]));
                }
            }
            assert forall|n: Seq<char>| types.has(n) implies old(types).has(n) || exists|k: int|
                0 <= k < ty.refs().len() && desc_names(#[trigger] ty.refs()[k], n) by {
                if !mid_map.has(n) {
                    assert(desc_names(ty.refs()[i as int], n));
                }
            }
        }
        i += 1;
    }
    Ok(())
}

impl TypeLib {
    /// Makes the library of a description: the root has to have a name, and
    /// its identifier is the one root of the library; every type with a name
    /// in the description becomes a type of the library, with the types
    /// nested in it as references, by name where they have one. It succeeds
    /// where the root has a name, no name stands for two types, no type of
    /// another library stands in the description, and the description names
    /// no more than 65535 types. The faults are looked for in this order.
    pub fn try_from(root: &StenType) -> (r: Result<TypeLib, TranslateError>)
        ensures
            r is Ok <==> root is Named && index_desc(*root, Map::empty()) is Ok && desc_local(
                *root,
            ) && exists|names: Seq<Seq<char>>| #[trigger]
                names_listed(*root, names) && names.len() <= MAX_TYPES,
            match r {
                Ok(lib) => {
                    &&& root is Named
                    &&& desc_local(*root)
                    &&& lib.wf()
                    &&& lib.roots@.len() == 1
                    &&& lib.roots@[0]@ == desc_id(*root)
                    &&& index_desc(*root, Map::empty()) == Ok::<
                        Map<Seq<char>, Seq<u8>>,
                        Seq<char>,
                    >(id_map(lib.index))
                    &&& forall|n: Seq<char>| lib.types.has(n) <==> desc_names(*root, n)
                    &&& forall|i: int|
                        0 <= i < lib.types@.len() ==> entry_from(*root, #[trigger] lib.types@[i])
                },
                Err(e) => match e {
                    TranslateError::UnknownId(id) => !(root is Named) && id@ == desc_id(*root),
                    TranslateError::DuplicateName(name) => root is Named && index_desc(
                        *root,
                        Map::empty(),
                    ) == Err::<Map<Seq<char>, Seq<u8>>, Seq<char>>(name@),
                    TranslateError::UnknownDependency(alias) => root is Named && index_desc(
                        *root,
                        Map::empty(),
                    ) is Ok && !desc_local(*root) && desc_foreign(*root) == Some(alias@),
                    TranslateError::Confinement(c) => {
                        &&& root is Named
                        &&& index_desc(*root, Map::empty()) is Ok
                        &&& desc_local(*root)
                        &&& exists|names: Seq<Seq<char>>| #[trigger]
                            names_listed(*root, names) && names.len() > MAX_TYPES && c == (
                            ConfinementError::Oversize {
                                len: names.len() as usize,
                                max_len: MAX_TYPES,
                            })
                    },
                    _ => false,
                },
            },
    {
        let id = desc_sem_id(root);
        match root {
            StenType::Named(_, _) => {},
            _ => {
                return Err(TranslateError::UnknownId(id));
            },
        }
        let index = match root.build_index() {
            Ok(index) => index,
            Err(e) => {
                return Err(e);
            },
        };
        let mut types: OrdMap<Ty<InlineRef>> = OrdMap::new();
        let ghost empty = types;
        assert forall|n: Seq<char>| !empty.has(n) by {
            if empty.has(n) {
                empty.lemma_has(n);
            }
        }
        match add_defs(root, &mut types) {
            Ok(()) => {},
            Err(e) => {
                return Err(e);
            },
        }
        proof {
            let keys = types.keys();
            assert(names_listed(*root, keys)) by {
                assert forall|n: Seq<char>| keys.contains(n) <==> desc_names(*root, n) by {
                    assert(types.has(n) == keys.contains(n));
                }
            }
            assert(keys.len() == types@.len());
            assert forall|names: Seq<Seq<char>>| names_listed(*root, names) implies names.len()
                == types@.len() by {
                lemma_sorted_same_keys(names, keys);
            }
        }
        if types.len() > MAX_TYPES {
            return Err(
                TranslateError::Confinement(
                    ConfinementError::Oversize { len: types.len(), max_len: MAX_TYPES },
                ),
            );
        }
        proof {
            let name = root->Named_0;
            assert(desc_names(*root, name@));
            types.lemma_has(name@);
            assert forall|i: int| 0 <= i < types@.len() implies entry_from(
                *root,
                #[trigger] types@[i],
            ) by {
                assert(!Seq::<Entry<Ty<InlineRef>>>::empty().contains(types@[i]));
            }
        }
        Ok(TypeLib { roots: IdSet::with(id), index, types })
    }
}

} // verus!
