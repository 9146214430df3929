//! Building a library from descriptions of types: every type with a name
//! becomes a type of the library, every type without one is held inline as
//! far as the forms of reference nest.

use vstd::prelude::*;
use crate::ast::id::{ref_ids, SemId, TypeRef};
use crate::ast::sten::{
    desc_id, desc_ids, desc_sem_id, lemma_desc_id, lemma_refs_decrease, StenType,
};
use crate::ast::ty::{clone_name, clone_variants, tags_of, Field, KeyTy, Tagged, Ty};
use crate::ord_map::{keys_of, Entry, OrdMap};
use crate::schema::PrimitiveType;
use crate::typelib::type_lib::{
    alias_set, aliases_of, id_map, map_extends, named_resolved, type_ids, Dependency, InlineRef,
    InlineRef1, InlineRef2, LibFault, LibForm, LibRef, TranslateError, TypeIndex, TypeLib,
    lemma_invalid_from, lemma_invalid_single, parts_fault,
    MAX_DEPENDENCIES, MAX_TYPES,
};
use crate::util::{LibName, TypeName};

verus! {

/// The description is the primitive `U8` without a name.
pub open spec fn is_byte(d: StenType) -> bool {
    d matches StenType::Inline(ty) && *ty == Ty::<StenType>::Primitive(PrimitiveType::U8)
}

/// The key type that a description stands for, if it stands for one: a
/// primitive, an array or a list of `U8`, or a unicode string, without a name.
pub open spec fn key_form(d: StenType) -> Option<KeyTy> {
    match d {
        StenType::Inline(ty) => match *ty {
            Ty::Primitive(p) => Some(KeyTy::Primitive(p)),
            Ty::Array(r, len) => if is_byte(r) {
                Some(KeyTy::Array(len))
            } else {
                None
            },
            Ty::List(r, sizing) => if is_byte(r) {
                Some(KeyTy::Bytes(sizing))
            } else {
                None
            },
            Ty::Unicode(sizing) => Some(KeyTy::UnicodeStr(sizing)),
            _ => None,
        },
        _ => None,
    }
}

/// What keeps a description from becoming a reference that `depth` forms of
/// reference can follow, if anything does. With no form left the
/// description has to stand for a key type: an inline type with a fault is
/// the fault, and anything else that is no key type nests too deep. With
/// forms left, a type with a name is taken by name, a type of another
/// library needs its alias among `aliases`, and an inline type is looked at
/// as `translate_fault` tells.
pub open spec fn desc_fault(d: StenType, depth: nat, aliases: Set<Seq<char>>) -> Option<LibFault>
    decreases d, 0int,
{
    match d {
        StenType::Inline(ty) => if depth == 0 {
            match ty.fault() {
                Some(fault) => Some(LibFault::InvalidType(fault)),
                None => if key_form(d) is Some {
                    None
                } else {
                    Some(LibFault::TooDeep)
                },
            }
        } else {
            translate_fault(*ty, (depth - 1) as nat, aliases)
        },
        StenType::Named(_, _) => if depth == 0 {
            Some(LibFault::TooDeep)
        } else {
            None
        },
        StenType::Extern(_, alias, _) => if depth == 0 {
            Some(LibFault::TooDeep)
        } else if aliases.contains(alias@) {
            None
        } else {
            Some(LibFault::UnknownDependency(alias@))
        },
    }
}

/// What keeps the definition of a type from being translated, with the
/// types nested in it as references that `depth` forms of reference can
/// follow: the fault of the type itself, or else the first fault among the
/// types nested in it, in their order.
pub open spec fn translate_fault(ty: Ty<StenType>, depth: nat, aliases: Set<Seq<char>>) -> Option<
    LibFault,
>
    decreases ty, ty.refs().len() + 1,
{
    match ty.fault() {
        Some(fault) => Some(LibFault::InvalidType(fault)),
        None => refs_fault(ty, depth, aliases, 0),
    }
}

/// The first fault among the types nested in `ty` from position `from` on.
pub open spec fn refs_fault(
    ty: Ty<StenType>,
    depth: nat,
    aliases: Set<Seq<char>>,
    from: int,
) -> Option<LibFault>
    decreases ty, ty.refs().len() - from,
{
    if from < 0 || from >= ty.refs().len() {
        None
    } else {
        proof {
            lemma_refs_decrease(ty, from);
        }
        match desc_fault(ty.refs()[from], depth, aliases) {
            Some(fault) => Some(fault),
            None => refs_fault(ty, depth, aliases, from + 1),
        }
    }
}

/// Where a type holds one nested type, the first fault among the nested
/// types is that of the one.
proof fn lemma_refs_fault_single(ty: Ty<StenType>, depth: nat, aliases: Set<Seq<char>>)
    requires
        ty.refs().len() == 1,
    ensures
        refs_fault(ty, depth, aliases, 0) == desc_fault(ty.refs()[0], depth, aliases),
{
    assert(refs_fault(ty, depth, aliases, 1) is None);
}

/// Whether the outcome of a translation is the one that the model gives:
/// success where there is no fault, else the error that reports the fault.
pub open spec fn translate_outcome<T>(r: Result<T, TranslateError>, model: Option<LibFault>) -> bool {
    match r {
        Ok(_) => model is None,
        Err(e) => model == Some(e.fault()),
    }
}

/// Types of the same shape have the same fault.
pub proof fn lemma_same_shape_fault<A, B>(a: Ty<A>, b: Ty<B>)
    requires
        same_shape(a, b),
    ensures
        a.fault() == b.fault(),
{
}

/// Every type with a name in the description, at any depth, stands in
/// `types` under that name with its identifier.
pub open spec fn desc_covered(d: StenType, types: Map<Seq<char>, Seq<u8>>) -> bool
    decreases d,
{
    match d {
        StenType::Inline(ty) => forall|i: int|
            0 <= i < ty.refs().len() ==> {
                proof {
                    lemma_refs_decrease(*ty, i);
                }
                desc_covered(#[trigger] ty.refs()[i], types)
            },
        StenType::Named(name, ty) => named_resolved(types, name@, desc_id(d)) && forall|i: int|
            0 <= i < ty.refs().len() ==> {
                proof {
                    lemma_refs_decrease(*ty, i);
                }
                desc_covered(#[trigger] ty.refs()[i], types)
            },
        StenType::Extern(_, _, _) => true,
    }
}

/// The two types are of the same variant and agree on all but the
/// references to the types nested in them.
pub open spec fn same_shape<A, B>(a: Ty<A>, b: Ty<B>) -> bool {
    match a {
        Ty::Primitive(p) => b == Ty::<B>::Primitive(p),
        Ty::Enum(variants) => b matches Ty::Enum(others) && tags_of(others@) == tags_of(
            variants@,
        ),
        Ty::Union(fields) => b matches Ty::Union(others) && tags_of(others@) == tags_of(fields@),
        Ty::Struct(fields) => b matches Ty::Struct(others) && tags_of(others@) == tags_of(
            fields@,
        ),
        Ty::Array(_, len) => b matches Ty::Array(_, other) && other == len,
        Ty::List(_, sizing) => b matches Ty::List(_, other) && other == sizing,
        Ty::SetOf(_, sizing) => b matches Ty::SetOf(_, other) && other == sizing,
        Ty::MapOf(key, _, sizing) => b matches Ty::MapOf(k, _, other) && k == key && other
            == sizing,
        Ty::Unicode(sizing) => b == Ty::<B>::Unicode(sizing),
    }
}

/// Types of the same shape whose nested types have the same identifiers have
/// the same identifier under every name.
pub proof fn lemma_same_shape_id<A: TypeRef, B: TypeRef>(a: Ty<A>, b: Ty<B>, name: Option<Seq<char>>)
    requires
        same_shape(a, b),
        ref_ids(a.refs()) == ref_ids(b.refs()),
    ensures
        a.spec_id(name) == b.spec_id(name),
{
    let ids = ref_ids(a.refs());
    assert(a.spec_cls() == b.spec_cls());
    assert(a.body_bytes(ids) == b.body_bytes(ids));
}

/// A form of reference into which descriptions translate.
pub trait Level: LibForm {
    /// Translates a description into a reference of this form. It succeeds
    /// where nothing keeps the description from becoming such a reference,
    /// and fails with the first fault else. The result has the identifier of
    /// the description, it resolves against all types that cover the
    /// description, and its inline types meet their invariants.
    fn from_desc(
        d: &StenType,
        deps: &OrdMap<Dependency>,
        Ghost(types): Ghost<Map<Seq<char>, Seq<u8>>>,
    ) -> (r: Result<Self, TranslateError>)
        requires
            desc_covered(*d, types),
        ensures
            translate_outcome(r, desc_fault(*d, Self::depth(), aliases_of(*deps))),
            r matches Ok(x) ==> x.sem_id() == desc_id(*d) && x.resolved(types, aliases_of(*deps))
                && x.invalid() is None,
    ;
}

/// All types nested in `ty` are covered by `types`.
pub open spec fn refs_covered(ty: Ty<StenType>, types: Map<Seq<char>, Seq<u8>>) -> bool {
    forall|i: int| 0 <= i < ty.refs().len() ==> desc_covered(#[trigger] ty.refs()[i], types)
}

/// Translates fields or alternatives, one by one.
fn translate_fields<R: Level>(
    ty: &Ty<StenType>,
    fields: &Vec<Field<StenType>>,
    deps: &OrdMap<Dependency>,
    Ghost(types): Ghost<Map<Seq<char>, Seq<u8>>>,
) -> (r: Result<Vec<Field<R>>, TranslateError>)
    requires
        ty.refs() == fields@.map_values(|f: Field<StenType>| f.ty),
        refs_covered(*ty, types),
    ensures
        translate_outcome(r, refs_fault(*ty, R::depth(), aliases_of(*deps), 0)),
        r matches Ok(out) ==> {
            &&& tags_of(out@) == tags_of(fields@)
            &&& ref_ids(out@.map_values(|f: Field<R>| f.ty)) == ref_ids(ty.refs())
            &&& forall|i: int|
                0 <= i < out@.len() ==> (#[trigger] out@[i]).ty.resolved(types, aliases_of(*deps))
                    && out@[i].ty.invalid() is None
        },
{
    let mut out: Vec<Field<R>> = Vec::new();
    let mut i: usize = 0;
    while i < fields.len()
        invariant
            i <= fields.len(),
            out@.len() == i,
            ty.refs() == fields@.map_values(|f: Field<StenType>| f.ty),
            refs_covered(*ty, types),
            refs_fault(*ty, R::depth(), aliases_of(*deps), 0) == refs_fault(
                *ty,
                R::depth(),
                aliases_of(*deps),
                i as int,
            ),
            forall|j: int| 0 <= j < i ==> (#[trigger] out@[j]).tag() == fields@[j].tag(),
            forall|j: int| 0 <= j < i ==> (#[trigger] out@[j]).ty.sem_id() == desc_id(fields@[j].ty),
            forall|j: int|
                0 <= j < i ==> (#[trigger] out@[j]).ty.resolved(types, aliases_of(*deps))
                    && out@[j].ty.invalid() is None,
        decreases fields.len() - i,
    {
        let field = &fields[i];
        assert(ty.refs()[i as int] == field.ty);
        match R::from_desc(&field.ty, deps, Ghost(types)) {
            Ok(r) => {
                out.push(Field { name: clone_name(&field.name), ord: field.ord, ty: r });
            },
            Err(e) => {
                return Err(e);
            },
        }
        i += 1;
    }
    proof {
        assert(tags_of(out@) =~= tags_of(fields@));
        assert(ref_ids(out@.map_values(|f: Field<R>| f.ty)) =~= ref_ids(ty.refs()));
    }
    Ok(out)
}

/// Translates the definition of a type: its invariants are checked, its
/// shape stays, and the types nested in it become references of the form
/// `R`.
fn translate_ty<R: Level>(
    ty: &Ty<StenType>,
    deps: &OrdMap<Dependency>,
    Ghost(types): Ghost<Map<Seq<char>, Seq<u8>>>,
) -> (r: Result<Ty<R>, TranslateError>)
    requires
        refs_covered(*ty, types),
    ensures
        translate_outcome(r, translate_fault(*ty, R::depth(), aliases_of(*deps))),
        r matches Ok(t) ==> {
            &&& same_shape(*ty, t)
            &&& ref_ids(t.refs()) == ref_ids(ty.refs())
            &&& t.resolved(types, aliases_of(*deps))
            &&& t.invalid() is None
        },
{
    match ty.check_wf() {
        Ok(()) => {},
        Err(e) => {
            return Err(TranslateError::InvalidType(e));
        },
    }
    match ty {
        Ty::Primitive(p) => Ok(Ty::Primitive(*p)),
        Ty::Enum(variants) => {
            let t = Ty::Enum(clone_variants(variants));
            proof {
                lemma_same_shape_fault(*ty, t);
            }
            Ok(t)
        },
        Ty::Union(fields) => match translate_fields::<R>(ty, fields, deps, Ghost(types)) {
            Ok(out) => {
                let t = Ty::Union(out);
                proof {
                    lemma_same_shape_fault(*ty, t);
                    lemma_invalid_from(t.refs(), 0);
                }
                Ok(t)
            },
            Err(e) => Err(e),
        },
        Ty::Struct(fields) => match translate_fields::<R>(ty, fields, deps, Ghost(types)) {
            Ok(out) => {
                let t = Ty::Struct(out);
                proof {
                    lemma_same_shape_fault(*ty, t);
                    lemma_invalid_from(t.refs(), 0);
                }
                Ok(t)
            },
            Err(e) => Err(e),
        },
        Ty::Array(item, len) => {
            assert(ty.refs()[0] == *item);
            proof {
                lemma_refs_fault_single(*ty, R::depth(), aliases_of(*deps));
            }
            match R::from_desc(item, deps, Ghost(types)) {
                Ok(r) => {
                    let t = Ty::Array(r, *len);
                    proof {
                        assert(ref_ids(t.refs()) =~= ref_ids(ty.refs()));
                        lemma_same_shape_fault(*ty, t);
                        lemma_invalid_single(t.refs());
                    }
                    Ok(t)
                },
                Err(e) => Err(e),
            }
        },
        Ty::List(item, sizing) => {
            assert(ty.refs()[0] == *item);
            proof {
                lemma_refs_fault_single(*ty, R::depth(), aliases_of(*deps));
            }
            match R::from_desc(item, deps, Ghost(types)) {
                Ok(r) => {
                    let t = Ty::List(r, *sizing);
                    proof {
                        assert(ref_ids(t.refs()) =~= ref_ids(ty.refs()));
                        lemma_same_shape_fault(*ty, t);
                        lemma_invalid_single(t.refs());
                    }
                    Ok(t)
                },
                Err(e) => Err(e),
            }
        },
        Ty::SetOf(item, sizing) => {
            assert(ty.refs()[0] == *item);
            proof {
                lemma_refs_fault_single(*ty, R::depth(), aliases_of(*deps));
            }
            match R::from_desc(item, deps, Ghost(types)) {
                Ok(r) => {
                    let t = Ty::SetOf(r, *sizing);
                    proof {
                        assert(ref_ids(t.refs()) =~= ref_ids(ty.refs()));
                        lemma_same_shape_fault(*ty, t);
                        lemma_invalid_single(t.refs());
                    }
                    Ok(t)
                },
                Err(e) => Err(e),
            }
        },
        Ty::MapOf(key, item, sizing) => {
            assert(ty.refs()[0] == *item);
            proof {
                lemma_refs_fault_single(*ty, R::depth(), aliases_of(*deps));
            }
            match R::from_desc(item, deps, Ghost(types)) {
                Ok(r) => {
                    let t = Ty::MapOf(*key, r, *sizing);
                    proof {
                        assert(ref_ids(t.refs()) =~= ref_ids(ty.refs()));
                        lemma_same_shape_fault(*ty, t);
                        lemma_invalid_single(t.refs());
                    }
                    Ok(t)
                },
                Err(e) => Err(e),
            }
        },
        Ty::Unicode(sizing) => Ok(Ty::Unicode(*sizing)),
    }
}

/// Whether the description is the primitive `U8` without a name.
fn byte_desc(d: &StenType) -> (r: bool)
    ensures
        r == is_byte(*d),
{
    match d {
        StenType::Inline(ty) => match &**ty {
            Ty::Primitive(p) => match p {
                PrimitiveType::U8 => true,
                _ => false,
            },
            _ => false,
        },
        _ => false,
    }
}

/// A description that stands for a key type has the identifier of that key
/// type; and where its type has no fault, the key type has none.
pub proof fn lemma_key_form(d: StenType)
    requires
        key_form(d) is Some,
    ensures
        key_form(d).unwrap().spec_id() == desc_id(d),
        d->Inline_0.fault() is None ==> key_form(d).unwrap().fault() is None,
{
    match d {
        StenType::Inline(ty) => {
            assert(desc_ids(*ty, 0) =~= Seq::empty());
            match *ty {
                Ty::Primitive(p) => {
                    assert(ty.commitment_with(None, Seq::empty()) =~= p.commitment());
                },
                Ty::Array(r, len) => {
                    lemma_byte_id(r);
                    assert(desc_ids(*ty, 1) =~= seq![desc_id(r)]);
                    assert(ty.refs()[0] == r);
                    assert(ty.commitment_with(None, desc_ids(*ty, 1)) =~= KeyTy::Array(
                        len,
                    ).commitment());
                },
                Ty::List(r, sizing) => {
                    lemma_byte_id(r);
                    assert(desc_ids(*ty, 1) =~= seq![desc_id(r)]);
                    assert(ty.refs()[0] == r);
                    assert(ty.commitment_with(None, desc_ids(*ty, 1)) =~= KeyTy::Bytes(
                        sizing,
                    ).commitment());
                },
                Ty::Unicode(sizing) => {
                    assert(ty.commitment_with(None, Seq::empty()) =~= KeyTy::UnicodeStr(
                        sizing,
                    ).commitment());
                },
                _ => {},
            }
        },
        _ => {},
    }
}

/// The identifier of the primitive `U8` without a name.
proof fn lemma_byte_id(d: StenType)
    requires
        is_byte(d),
    ensures
        desc_id(d) == crate::ast::id::tagged_hash(PrimitiveType::U8.commitment()),
{
    match d {
        StenType::Inline(ty) => {
            assert(desc_ids(*ty, 0) =~= Seq::empty());
            assert(ty.commitment_with(None, Seq::empty()) =~= PrimitiveType::U8.commitment());
        },
        _ => {},
    }
}

impl Level for KeyTy {
    fn from_desc(
        d: &StenType,
        deps: &OrdMap<Dependency>,
        Ghost(types): Ghost<Map<Seq<char>, Seq<u8>>>,
    ) -> (r: Result<Self, TranslateError>) {
        proof {
            if key_form(*d) is Some {
                lemma_key_form(*d);
            }
        }
        match d {
            StenType::Inline(ty) => {
                match ty.check_wf() {
                    Ok(()) => {},
                    Err(e) => {
                        return Err(TranslateError::InvalidType(e));
                    },
                }
                match &**ty {
                    Ty::Primitive(p) => Ok(KeyTy::Primitive(*p)),
                    Ty::Array(r, len) => if byte_desc(r) {
                        Ok(KeyTy::Array(*len))
                    } else {
                        Err(TranslateError::TooDeep)
                    },
                    Ty::List(r, sizing) => if byte_desc(r) {
                        Ok(KeyTy::Bytes(*sizing))
                    } else {
                        Err(TranslateError::TooDeep)
                    },
                    Ty::Unicode(sizing) => Ok(KeyTy::UnicodeStr(*sizing)),
                    _ => Err(TranslateError::TooDeep),
                }
            },
            _ => Err(TranslateError::TooDeep),
        }
    }
}

impl Level for InlineRef2 {
    fn from_desc(
        d: &StenType,
        deps: &OrdMap<Dependency>,
        Ghost(types): Ghost<Map<Seq<char>, Seq<u8>>>,
    ) -> (r: Result<Self, TranslateError>) {
        match d {
            StenType::Named(name, _) => Ok(InlineRef2::Named(name.clone(), desc_sem_id(d))),
            StenType::Extern(name, alias, id) => if deps.contains_key(alias) {
                Ok(InlineRef2::Extern(name.clone(), alias.clone(), *id))
            } else {
                Err(TranslateError::UnknownDependency(alias.clone()))
            },
            StenType::Inline(ty) => {
                proof {
                    lemma_desc_id(*d);
                }
                match translate_ty::<KeyTy>(ty, deps, Ghost(types)) {
                    Ok(t) => {
                        proof {
                            lemma_same_shape_id(**ty, t, None);
                        }
                        Ok(InlineRef2::Builtin(t))
                    },
                    Err(e) => Err(e),
                }
            },
        }
    }
}

impl Level for InlineRef1 {
    fn from_desc(
        d: &StenType,
        deps: &OrdMap<Dependency>,
        Ghost(types): Ghost<Map<Seq<char>, Seq<u8>>>,
    ) -> (r: Result<Self, TranslateError>) {
        match d {
            StenType::Named(name, _) => Ok(InlineRef1::Named(name.clone(), desc_sem_id(d))),
            StenType::Extern(name, alias, id) => if deps.contains_key(alias) {
                Ok(InlineRef1::Extern(name.clone(), alias.clone(), *id))
            } else {
                Err(TranslateError::UnknownDependency(alias.clone()))
            },
            StenType::Inline(ty) => {
                proof {
                    lemma_desc_id(*d);
                }
                match translate_ty::<InlineRef2>(ty, deps, Ghost(types)) {
                    Ok(t) => {
                        proof {
                            lemma_same_shape_id(**ty, t, None);
                        }
                        Ok(InlineRef1::Builtin(t))
                    },
                    Err(e) => Err(e),
                }
            },
        }
    }
}

impl Level for InlineRef {
    fn from_desc(
        d: &StenType,
        deps: &OrdMap<Dependency>,
        Ghost(types): Ghost<Map<Seq<char>, Seq<u8>>>,
    ) -> (r: Result<Self, TranslateError>) {
        match d {
            StenType::Named(name, _) => Ok(InlineRef::Named(name.clone(), desc_sem_id(d))),
            StenType::Extern(name, alias, id) => if deps.contains_key(alias) {
                Ok(InlineRef::Extern(name.clone(), alias.clone(), *id))
            } else {
                Err(TranslateError::UnknownDependency(alias.clone()))
            },
            StenType::Inline(ty) => {
                proof {
                    lemma_desc_id(*d);
                }
                match translate_ty::<InlineRef1>(ty, deps, Ghost(types)) {
                    Ok(t) => {
                        proof {
                            lemma_same_shape_id(**ty, t, None);
                        }
                        Ok(InlineRef::Builtin(t))
                    },
                    Err(e) => Err(e),
                }
            },
        }
    }
}

impl Level for LibRef {
    fn from_desc(
        d: &StenType,
        deps: &OrdMap<Dependency>,
        Ghost(types): Ghost<Map<Seq<char>, Seq<u8>>>,
    ) -> (r: Result<Self, TranslateError>) {
        match d {
            StenType::Named(name, _) => Ok(LibRef::Named(name.clone(), desc_sem_id(d))),
            StenType::Extern(name, alias, id) => if deps.contains_key(alias) {
                Ok(LibRef::Extern(name.clone(), alias.clone(), *id))
            } else {
                Err(TranslateError::UnknownDependency(alias.clone()))
            },
            StenType::Inline(ty) => {
                proof {
                    lemma_desc_id(*d);
                }
                match translate_ty::<InlineRef>(ty, deps, Ghost(types)) {
                    Ok(t) => {
                        proof {
                            lemma_same_shape_id(**ty, t, None);
                        }
                        Ok(LibRef::Inline(t))
                    },
                    Err(e) => Err(e),
                }
            },
        }
    }
}

/// The index after a type with the name `name` and the identifier `id` has
/// been entered, or the name as the error where the name stands for another
/// identifier already, or the identifier under another name.
pub open spec fn index_step(map: Map<Seq<char>, Seq<u8>>, name: Seq<char>, id: Seq<u8>) -> Result<
    Map<Seq<char>, Seq<u8>>,
    Seq<char>,
> {
    if map.dom().contains(name) {
        if map[name] == id {
            Ok(map)
        } else {
            Err(name)
        }
    } else if exists|other: Seq<char>| map.dom().contains(other) && map[other] == id {
        Err(name)
    } else {
        Ok(map.insert(name, id))
    }
}

/// The index after every type with a name in the description has been
/// entered: the described type first, then the types nested in it in their
/// order. The error is the first name that cannot be entered.
pub open spec fn index_desc(d: StenType, map: Map<Seq<char>, Seq<u8>>) -> Result<
    Map<Seq<char>, Seq<u8>>,
    Seq<char>,
>
    decreases d, 0int,
{
    match d {
        StenType::Inline(ty) => index_refs(*ty, map, 0),
        StenType::Named(name, ty) => match index_step(map, name@, desc_id(d)) {
            Ok(next) => index_refs(*ty, next, 0),
            Err(n) => Err(n),
        },
        StenType::Extern(_, _, _) => Ok(map),
    }
}

/// The index after the types nested in `ty` from position `from` on have
/// been entered.
pub open spec fn index_refs(ty: Ty<StenType>, map: Map<Seq<char>, Seq<u8>>, from: int) -> Result<
    Map<Seq<char>, Seq<u8>>,
    Seq<char>,
>
    decreases ty, ty.refs().len() - from,
{
    if from < 0 || from >= ty.refs().len() {
        Ok(map)
    } else {
        proof {
            lemma_refs_decrease(ty, from);
        }
        match index_desc(ty.refs()[from], map) {
            Ok(next) => index_refs(ty, next, from + 1),
            Err(n) => Err(n),
        }
    }
}

/// The index as far as indexing the description gets: the index that comes
/// out where all names can be entered, and else the index as it stands when
/// the first name cannot be entered.
pub open spec fn index_reached(d: StenType, map: Map<Seq<char>, Seq<u8>>) -> Map<
    Seq<char>,
    Seq<u8>,
>
    decreases d, 0int,
{
    match d {
        StenType::Inline(ty) => index_refs_reached(*ty, map, 0),
        StenType::Named(name, ty) => match index_step(map, name@, desc_id(d)) {
            Ok(next) => index_refs_reached(*ty, next, 0),
            Err(_) => map,
        },
        StenType::Extern(_, _, _) => map,
    }
}

/// The index as far as indexing the types nested in `ty` from position
/// `from` on gets.
pub open spec fn index_refs_reached(
    ty: Ty<StenType>,
    map: Map<Seq<char>, Seq<u8>>,
    from: int,
) -> Map<Seq<char>, Seq<u8>>
    decreases ty, ty.refs().len() - from,
{
    if from < 0 || from >= ty.refs().len() {
        map
    } else {
        proof {
            lemma_refs_decrease(ty, from);
        }
        match index_desc(ty.refs()[from], map) {
            Ok(next) => index_refs_reached(ty, next, from + 1),
            Err(_) => index_reached(ty.refs()[from], map),
        }
    }
}

/// Indexing never removes an entry nor changes one, whether it succeeds or
/// not; and where it succeeds the index that it reaches is the one that
/// comes out.
pub proof fn lemma_index_reached(d: StenType, map: Map<Seq<char>, Seq<u8>>)
    ensures
        map_extends(map, index_reached(d, map)),
        index_desc(d, map) matches Ok(after) ==> index_reached(d, map) == after,
    decreases d, 0int,
{
    match d {
        StenType::Inline(ty) => {
            lemma_index_refs_reached(*ty, map, 0);
        },
        StenType::Named(name, ty) => {
            match index_step(map, name@, desc_id(d)) {
                Ok(next) => {
                    lemma_index_refs_reached(*ty, next, 0);
                    let reached = index_refs_reached(*ty, next, 0);
                    assert forall|n: Seq<char>| #[trigger] map.dom().contains(n) implies reached.dom().contains(
                        n,
                    ) && reached[n] == map[n] by {
                        assert(next.dom().contains(n));
                    }
                },
                Err(_) => {},
            }
        },
        StenType::Extern(_, _, _) => {},
    }
}

/// The same for the types nested in a type from `from` on.
pub proof fn lemma_index_refs_reached(ty: Ty<StenType>, map: Map<Seq<char>, Seq<u8>>, from: int)
    requires
        0 <= from,
    ensures
        map_extends(map, index_refs_reached(ty, map, from)),
        index_refs(ty, map, from) matches Ok(after) ==> index_refs_reached(ty, map, from)
            == after,
    decreases ty, ty.refs().len() - from,
{
    if from < ty.refs().len() {
        lemma_refs_decrease(ty, from);
        lemma_index_reached(ty.refs()[from], map);
        match index_desc(ty.refs()[from], map) {
            Ok(next) => {
                lemma_index_refs_reached(ty, next, from + 1);
                let reached = index_refs_reached(ty, next, from + 1);
                assert forall|n: Seq<char>| #[trigger] map.dom().contains(n) implies reached.dom().contains(
                    n,
                ) && reached[n] == map[n] by {
                    assert(next.dom().contains(n));
                }
            },
            Err(_) => {},
        }
    }
}

/// Enters one type into the index.
fn index_insert(index: &mut TypeIndex, name: &TypeName, id: SemId) -> (r: Result<
    (),
    TranslateError,
>)
    ensures
        match r {
            Ok(()) => index_step(id_map(*old(index)), name@, id@) == Ok::<
                Map<Seq<char>, Seq<u8>>,
                Seq<char>,
            >(id_map(*final(index))),
            Err(e) => {
                &&& index_step(id_map(*old(index)), name@, id@) is Err
                &&& *final(index) == *old(index)
                &&& e matches TranslateError::DuplicateName(n) && n@ == name@
            },
        },
{
    let ghost map = id_map(*index);
    match index.get(name) {
        Some(found) => {
            if found.same(&id) {
                assert(id_map(*index) =~= map);
                Ok(())
            } else {
                Err(TranslateError::DuplicateName(name.clone()))
            }
        },
        None => {
            let mut i: usize = 0;
            while i < index.len()
                invariant
                    i <= index@.len(),
                    index.wf(),
                    !index.has(name@),
                    map == id_map(*index),
                    forall|j: int| 0 <= j < i ==> (#[trigger] index@[j]).value@ != id@,
                decreases index@.len() - i,
            {
                let entry = index.entry(i);
                if entry.value.same(&id) {
                    proof {
                        index.lemma_entry(i as int);
                        let other = entry.key@;
                        assert(map.dom().contains(other) && map[other] == id@);
                    }
                    return Err(TranslateError::DuplicateName(name.clone()));
                }
                i += 1;
            }
            proof {
                assert forall|other: Seq<char>| map.dom().contains(other) implies map[other]
                    != id@ by {
                    index.lemma_has(other);
                }
            }
            let ghost before = *index;
            index.insert(name.clone(), id);
            proof {
                assert(id_map(*index) =~= map.insert(name@, id@)) by {
                    assert forall|n: Seq<char>| id_map(*index).dom().contains(n) implies id_map(
                        *index,
                    )[n] == map.insert(name@, id@)[n] by {
                        assert(index.spec_map()[n] == before.spec_map().insert(name@, id)[n]);
                    }
                }
            }
            Ok(())
        },
    }
}

/// Finds the name under which the index holds the identifier `id`: the
/// first such name in the order of the names.
pub fn index_name<'a>(index: &'a TypeIndex, id: &SemId) -> (r: Option<&'a TypeName>)
    ensures
        match r {
            Some(name) => id_map(*index).dom().contains(name@) && id_map(*index)[name@] == id@,
            None => forall|n: Seq<char>| id_map(*index).dom().contains(n) ==> id_map(*index)[n]
                != id@,
        },
{
    proof {
        use_type_invariant(index);
    }
    let mut i: usize = 0;
    while i < index.len()
        invariant
            i <= index@.len(),
            index.wf(),
            forall|j: int| 0 <= j < i ==> (#[trigger] index@[j]).value@ != id@,
        decreases index@.len() - i,
    {
        let entry = index.entry(i);
        if entry.value.same(id) {
            proof {
                index.lemma_entry(i as int);
            }
            return Some(&entry.key);
        }
        i += 1;
    }
    proof {
        assert forall|n: Seq<char>| id_map(*index).dom().contains(n) implies id_map(*index)[n]
            != id@ by {
            index.lemma_has(n);
        }
    }
    None
}

/// Where a type holds one nested type, indexing the nested types is
/// indexing that one.
proof fn lemma_index_single(ty: Ty<StenType>, map: Map<Seq<char>, Seq<u8>>)
    requires
        ty.refs().len() == 1,
    ensures
        index_refs(ty, map, 0) == index_desc(ty.refs()[0], map),
        index_refs_reached(ty, map, 0) == index_reached(ty.refs()[0], map),
{
    lemma_index_reached(ty.refs()[0], map);
    match index_desc(ty.refs()[0], map) {
        Ok(next) => {
            assert(index_refs(ty, next, 1) == Ok::<Map<Seq<char>, Seq<u8>>, Seq<char>>(next));
            assert(index_refs_reached(ty, next, 1) == next);
        },
        Err(_) => {},
    }
}

/// Whether the outcome of indexing is the one that the model gives: on
/// success the index that comes out; on failure the name that could not be
/// entered, and the index as it stood when that name came.
pub open spec fn index_outcome(
    r: Result<(), TranslateError>,
    model: Result<Map<Seq<char>, Seq<u8>>, Seq<char>>,
    reached: Map<Seq<char>, Seq<u8>>,
    index: TypeIndex,
) -> bool {
    match r {
        Ok(()) => model == Ok::<Map<Seq<char>, Seq<u8>>, Seq<char>>(id_map(index)),
        Err(e) => {
            &&& model matches Err(n) && e matches TranslateError::DuplicateName(m) && m@ == n
            &&& id_map(index) == reached
        },
    }
}

impl StenType {
    /// Enters every type with a name in the description into the index: the
    /// described type first, then the types nested in it. Fails with the
    /// first name that stands for two identifiers, or whose identifier
    /// stands under two names.
    pub fn index(&self, index: &mut TypeIndex) -> (r: Result<(), TranslateError>)
        ensures
            index_outcome(
                r,
                index_desc(*self, id_map(*old(index))),
                index_reached(*self, id_map(*old(index))),
                *final(index),
            ),
            map_extends(id_map(*old(index)), id_map(*final(index))),
        decreases self, 0int,
    {
        proof {
            lemma_index_reached(*self, id_map(*index));
        }
        match self {
            StenType::Inline(ty) => ty.build_index(index),
            StenType::Named(name, ty) => {
                let id = desc_sem_id(self);
                match index_insert(index, name, id) {
                    Ok(()) => ty.build_index(index),
                    Err(e) => Err(e),
                }
            },
            StenType::Extern(_, _, _) => Ok(()),
        }
    }

    /// The index of the types with a name in the description.
    pub fn build_index(&self) -> (r: Result<TypeIndex, TranslateError>)
        ensures
            match r {
                Ok(index) => index_desc(*self, Map::empty()) == Ok::<
                    Map<Seq<char>, Seq<u8>>,
                    Seq<char>,
                >(id_map(index)),
                Err(e) => index_desc(*self, Map::empty()) matches Err(n) && e
                    matches TranslateError::DuplicateName(m) && m@ == n,
            },
    {
        let mut index: TypeIndex = OrdMap::new();
        assert(id_map(index) =~= Map::empty());
        match self.index(&mut index) {
            Ok(()) => Ok(index),
            Err(e) => Err(e),
        }
    }
}

impl Ty<StenType> {
    /// Enters every type with a name among the types nested in this one
    /// into the index, in their order.
    pub fn build_index(&self, index: &mut TypeIndex) -> (r: Result<(), TranslateError>)
        ensures
            index_outcome(
                r,
                index_refs(*self, id_map(*old(index)), 0),
                index_refs_reached(*self, id_map(*old(index)), 0),
                *final(index),
            ),
            map_extends(id_map(*old(index)), id_map(*final(index))),
        decreases self, 1int,
    {
        proof {
            lemma_index_refs_reached(*self, id_map(*index), 0);
        }
        match self {
            Ty::Union(fields) => {
                let mut i: usize = 0;
                while i < fields.len()
                    invariant
                        i <= fields.len(),
                        *self == Ty::<StenType>::Union(*fields),
                        index_refs(*self, id_map(*old(index)), 0) == index_refs(
                            *self,
                            id_map(*index),
                            i as int,
                        ),
                        index_refs_reached(*self, id_map(*old(index)), 0) == index_refs_reached(
                            *self,
                            id_map(*index),
                            i as int,
                        ),
                        map_extends(
                            id_map(*old(index)),
                            index_refs_reached(*self, id_map(*old(index)), 0),
                        ),
                    decreases fields.len() - i,
                {
                    proof {
                        lemma_refs_decrease(*self, i as int);
                    }
                    let ghost cur = id_map(*index);
                    let r = fields[i].ty.index(index);
                    proof {
                        lemma_index_reached(self.refs()[i as int], cur);
                    }
                    match r {
                        Ok(()) => {},
                        Err(e) => {
                            return Err(e);
                        },
                    }
                    i += 1;
                }
                Ok(())
            },
            Ty::Struct(fields) => {
                let mut i: usize = 0;
                while i < fields.len()
                    invariant
                        i <= fields.len(),
                        *self == Ty::<StenType>::Struct(*fields),
                        index_refs(*self, id_map(*old(index)), 0) == index_refs(
                            *self,
                            id_map(*index),
                            i as int,
                        ),
                        index_refs_reached(*self, id_map(*old(index)), 0) == index_refs_reached(
                            *self,
                            id_map(*index),
                            i as int,
                        ),
                        map_extends(
                            id_map(*old(index)),
                            index_refs_reached(*self, id_map(*old(index)), 0),
                        ),
                    decreases fields.len() - i,
                {
                    proof {
                        lemma_refs_decrease(*self, i as int);
                    }
                    let ghost cur = id_map(*index);
                    let r = fields[i].ty.index(index);
                    proof {
                        lemma_index_reached(self.refs()[i as int], cur);
                    }
                    match r {
                        Ok(()) => {},
                        Err(e) => {
                            return Err(e);
                        },
                    }
                    i += 1;
                }
                Ok(())
            },
            Ty::Array(r, _) => {
                proof {
                    lemma_index_single(*self, id_map(*index));
                }
                r.index(index)
            },
            Ty::List(r, _) => {
                proof {
                    lemma_index_single(*self, id_map(*index));
                }
                r.index(index)
            },
            Ty::SetOf(r, _) => {
                proof {
                    lemma_index_single(*self, id_map(*index));
                }
                r.index(index)
            },
            Ty::MapOf(_, r, _) => {
                proof {
                    lemma_index_single(*self, id_map(*index));
                }
                r.index(index)
            },
            _ => Ok(()),
        }
    }
}

/// What is covered by some types is covered by any types that hold them.
pub proof fn lemma_covered_extends(
    d: StenType,
    a: Map<Seq<char>, Seq<u8>>,
    b: Map<Seq<char>, Seq<u8>>,
)
    requires
        desc_covered(d, a),
        map_extends(a, b),
    ensures
        desc_covered(d, b),
    decreases d,
{
    match d {
        StenType::Inline(ty) => {
            assert forall|i: int| 0 <= i < ty.refs().len() implies desc_covered(
                #[trigger] ty.refs()[i],
                b,
            ) by {
                lemma_refs_decrease(*ty, i);
                lemma_covered_extends(ty.refs()[i], a, b);
            }
        },
        StenType::Named(name, ty) => {
            assert(a.dom().contains(name@));
            assert forall|i: int| 0 <= i < ty.refs().len() implies desc_covered(
                #[trigger] ty.refs()[i],
                b,
            ) by {
                lemma_refs_decrease(*ty, i);
                lemma_covered_extends(ty.refs()[i], a, b);
            }
        },
        StenType::Extern(_, _, _) => {},
    }
}

/// The index that indexing a description gives holds what the index held
/// before, and covers the description.
pub proof fn lemma_index_desc(
    d: StenType,
    map: Map<Seq<char>, Seq<u8>>,
)
    requires
        index_desc(d, map) is Ok,
    ensures
        map_extends(map, index_desc(d, map)->Ok_0),
        desc_covered(d, index_desc(d, map)->Ok_0),
    decreases d, 0int,
{
    let after = index_desc(d, map)->Ok_0;
    match d {
        StenType::Inline(ty) => {
            lemma_index_refs(*ty, map, 0);
        },
        StenType::Named(name, ty) => {
            let next = index_step(map, name@, desc_id(d))->Ok_0;
            lemma_index_refs(*ty, next, 0);
            assert(next.dom().contains(name@));
            assert forall|n: Seq<char>| #[trigger] map.dom().contains(n) implies after.dom().contains(
                n,
            ) && after[n] == map[n] by {
                assert(next.dom().contains(n));
            }
        },
        StenType::Extern(_, _, _) => {},
    }
}

/// The index that indexing the nested types from `from` on gives holds what
/// the index held before, and covers those nested types.
pub proof fn lemma_index_refs(
    ty: Ty<StenType>,
    map: Map<Seq<char>, Seq<u8>>,
    from: int,
)
    requires
        0 <= from,
        index_refs(ty, map, from) is Ok,
    ensures
        map_extends(map, index_refs(ty, map, from)->Ok_0),
        forall|i: int|
            from <= i < ty.refs().len() ==> desc_covered(
                #[trigger] ty.refs()[i],
                index_refs(ty, map, from)->Ok_0,
            ),
    decreases ty, ty.refs().len() - from,
{
    if from < ty.refs().len() {
        lemma_refs_decrease(ty, from);
        let next = index_desc(ty.refs()[from], map)->Ok_0;
        let after = index_refs(ty, next, from + 1)->Ok_0;
        lemma_index_desc(ty.refs()[from], map);
        lemma_index_refs(ty, next, from + 1);
        lemma_covered_extends(ty.refs()[from], next, after);
        assert forall|n: Seq<char>| #[trigger] map.dom().contains(n) implies after.dom().contains(n)
            && after[n] == map[n] by {
            assert(next.dom().contains(n));
        }
    }
}

/// What keeps the types with a name in a description from becoming types
/// of a library, if anything does: the first fault in the order in which the
/// description is gone through. A type with a name is translated first,
/// with the types nested in it as references of a library; then the types
/// nested in it are gone through in their order. Of a type without a name
/// only the types nested in it are gone through.
pub open spec fn desc_all_fault(d: StenType, aliases: Set<Seq<char>>) -> Option<LibFault>
    decreases d, 0int,
{
    match d {
        StenType::Inline(ty) => refs_all_fault(*ty, aliases, 0),
        StenType::Named(_, ty) => match translate_fault(*ty, LibRef::depth(), aliases) {
            Some(fault) => Some(fault),
            None => refs_all_fault(*ty, aliases, 0),
        },
        StenType::Extern(_, _, _) => None,
    }
}

/// The first such fault among the types nested in `ty` from position `from`
/// on.
pub open spec fn refs_all_fault(ty: Ty<StenType>, aliases: Set<Seq<char>>, from: int) -> Option<
    LibFault,
>
    decreases ty, ty.refs().len() - from,
{
    if from < 0 || from >= ty.refs().len() {
        None
    } else {
        proof {
            lemma_refs_decrease(ty, from);
        }
        match desc_all_fault(ty.refs()[from], aliases) {
            Some(fault) => Some(fault),
            None => refs_all_fault(ty, aliases, from + 1),
        }
    }
}

/// Where a type holds one nested type, the first such fault among the
/// nested types is that of the one.
proof fn lemma_refs_all_fault_single(ty: Ty<StenType>, aliases: Set<Seq<char>>)
    requires
        ty.refs().len() == 1,
    ensures
        refs_all_fault(ty, aliases, 0) == desc_all_fault(ty.refs()[0], aliases),
{
    assert(refs_all_fault(ty, aliases, 1) is None);
}

/// Some type in the description, at any depth, has the name `n`.
pub open spec fn desc_names(d: StenType, n: Seq<char>) -> bool
    decreases d,
{
    match d {
        StenType::Inline(ty) => exists|i: int|
            0 <= i < ty.refs().len() && {
                proof {
                    lemma_refs_decrease(*ty, i);
                }
                desc_names(#[trigger] ty.refs()[i], n)
            },
        StenType::Named(name, ty) => name@ == n || exists|i: int|
            0 <= i < ty.refs().len() && {
                proof {
                    lemma_refs_decrease(*ty, i);
                }
                desc_names(#[trigger] ty.refs()[i], n)
            },
        StenType::Extern(_, _, _) => false,
    }
}

/// Some type nested in `ty` at position `from` or behind it holds a type
/// with the name `n`.
pub open spec fn refs_names(ty: Ty<StenType>, n: Seq<char>, from: int) -> bool {
    exists|i: int| from <= i < ty.refs().len() && desc_names(#[trigger] ty.refs()[i], n)
}

/// The index that indexing a description gives holds no name but those that
/// it held before and those of the description.
pub proof fn lemma_index_names(d: StenType, map: Map<Seq<char>, Seq<u8>>, n: Seq<char>)
    requires
        index_desc(d, map) is Ok,
        index_desc(d, map)->Ok_0.dom().contains(n),
    ensures
        map.dom().contains(n) || desc_names(d, n),
    decreases d, 0int,
{
    match d {
        StenType::Inline(ty) => {
            lemma_index_refs_names(*ty, map, 0, n);
        },
        StenType::Named(name, ty) => {
            let next = index_step(map, name@, desc_id(d))->Ok_0;
            lemma_index_refs_names(*ty, next, 0, n);
        },
        StenType::Extern(_, _, _) => {},
    }
}

/// The same for the types nested in a type from `from` on.
pub proof fn lemma_index_refs_names(
    ty: Ty<StenType>,
    map: Map<Seq<char>, Seq<u8>>,
    from: int,
    n: Seq<char>,
)
    requires
        0 <= from,
        index_refs(ty, map, from) is Ok,
        index_refs(ty, map, from)->Ok_0.dom().contains(n),
    ensures
        map.dom().contains(n) || refs_names(ty, n, from),
    decreases ty, ty.refs().len() - from,
{
    if from < ty.refs().len() {
        lemma_refs_decrease(ty, from);
        let next = index_desc(ty.refs()[from], map)->Ok_0;
        lemma_index_refs_names(ty, next, from + 1, n);
        if next.dom().contains(n) {
            lemma_index_names(ty.refs()[from], map, n);
        } else {
            let i = choose|i: int|
                from + 1 <= i < ty.refs().len() && desc_names(#[trigger] ty.refs()[i], n);
            assert(from <= i < ty.refs().len() && desc_names(ty.refs()[i], n));
        }
    }
}

/// What the types of a library under construction keep: each stands in the
/// index under its name with its identifier, each resolves against the
/// index, and each meets its invariants, as do the inline types in it.
pub open spec fn types_indexed(
    types: Seq<Entry<Ty<LibRef>>>,
    index: Map<Seq<char>, Seq<u8>>,
    aliases: Set<Seq<char>>,
) -> bool {
    forall|i: int|
        0 <= i < types.len() ==> {
            &&& named_resolved(
                index,
                (#[trigger] types[i]).key@,
                types[i].value.spec_id(Some(types[i].key@)),
            )
            &&& types[i].value.resolved(index, aliases)
            &&& types[i].value.invalid() is None
        }
}

/// Some type in the description, at any depth, has the name `n` and the
/// definition `def`.
pub open spec fn desc_defines(d: StenType, n: Seq<char>, def: Ty<StenType>) -> bool
    decreases d,
{
    match d {
        StenType::Inline(ty) => exists|i: int|
            0 <= i < ty.refs().len() && {
                proof {
                    lemma_refs_decrease(*ty, i);
                }
                desc_defines(#[trigger] ty.refs()[i], n, def)
            },
        StenType::Named(name, ty) => (name@ == n && *ty == def) || exists|i: int|
            0 <= i < ty.refs().len() && {
                proof {
                    lemma_refs_decrease(*ty, i);
                }
                desc_defines(#[trigger] ty.refs()[i], n, def)
            },
        StenType::Extern(_, _, _) => false,
    }
}

/// The type stands for the definition: it has the same shape, and the
/// types nested in it have the identifiers of those nested in the
/// definition.
pub open spec fn lib_ty_matches(def: Ty<StenType>, t: Ty<LibRef>) -> bool {
    same_shape(def, t) && ref_ids(t.refs()) == ref_ids(def.refs())
}

/// The entry comes from the description: it stands for a definition that
/// the description gives under the name of the entry.
pub open spec fn lib_entry_from(d: StenType, entry: Entry<Ty<LibRef>>) -> bool {
    exists|def: Ty<StenType>| desc_defines(d, entry.key@, def) && lib_ty_matches(def, entry.value)
}

/// Each entry stood there before or comes from the description.
pub open spec fn lib_entries_from(
    d: StenType,
    before: Seq<Entry<Ty<LibRef>>>,
    after: Seq<Entry<Ty<LibRef>>>,
) -> bool {
    forall|i: int|
        0 <= i < after.len() ==> before.contains(#[trigger] after[i]) || lib_entry_from(d, after[i])
}

/// Each entry stood there before or comes from a type nested in `ty`.
pub open spec fn lib_entries_from_nested(
    ty: Ty<StenType>,
    before: Seq<Entry<Ty<LibRef>>>,
    after: Seq<Entry<Ty<LibRef>>>,
) -> bool {
    forall|j: int|
        0 <= j < after.len() ==> before.contains(#[trigger] after[j]) || exists|i: int|
            0 <= i < ty.refs().len() && lib_entry_from(#[trigger] ty.refs()[i], after[j])
}

/// What comes from a type nested in the definition of a description comes
/// from the description.
proof fn lemma_lib_entry_from_nested(d: StenType, i: int, entry: Entry<Ty<LibRef>>)
    requires
        d matches StenType::Inline(ty) ==> 0 <= i < ty.refs().len() && lib_entry_from(
            ty.refs()[i],
            entry,
        ),
        d matches StenType::Named(_, ty) ==> 0 <= i < ty.refs().len() && lib_entry_from(
            ty.refs()[i],
            entry,
        ),
        !(d is Extern),
    ensures
        lib_entry_from(d, entry),
{
    match d {
        StenType::Inline(ty) => {
            let def = choose|def: Ty<StenType>|
                desc_defines(ty.refs()[i], entry.key@, def) && lib_ty_matches(def, entry.value);
            assert(desc_defines(d, entry.key@, def));
        },
        StenType::Named(_, ty) => {
            let def = choose|def: Ty<StenType>|
                desc_defines(ty.refs()[i], entry.key@, def) && lib_ty_matches(def, entry.value);
            assert(desc_defines(d, entry.key@, def));
        },
        _ => {},
    }
}

/// What comes from the types nested in the definition of a description, or
/// stood there before, comes from the description or stood there before.
proof fn lemma_lib_entries_from_nested(
    d: StenType,
    ty: Ty<StenType>,
    before: Seq<Entry<Ty<LibRef>>>,
    after: Seq<Entry<Ty<LibRef>>>,
)
    requires
        d matches StenType::Inline(t) ==> *t == ty,
        d matches StenType::Named(_, t) ==> *t == ty,
        !(d is Extern),
        lib_entries_from_nested(ty, before, after),
    ensures
        lib_entries_from(d, before, after),
{
    assert forall|i: int| 0 <= i < after.len() implies before.contains(#[trigger] after[i])
        || lib_entry_from(d, after[i]) by {
        if !before.contains(after[i]) {
            let k = choose|k: int|
                0 <= k < ty.refs().len() && lib_entry_from(#[trigger] ty.refs()[k], after[i]);
            lemma_lib_entry_from_nested(d, k, after[i]);
        }
    }
}

/// Entries that come from a description or stood among entries which
/// themselves come from it or stood there before, come from it or stood
/// there before.
proof fn lemma_lib_entries_chain(
    d: StenType,
    before: Seq<Entry<Ty<LibRef>>>,
    mid: Seq<Entry<Ty<LibRef>>>,
    after: Seq<Entry<Ty<LibRef>>>,
)
    requires
        lib_entries_from(d, before, mid),
        lib_entries_from(d, mid, after),
    ensures
        lib_entries_from(d, before, after),
{
    assert forall|i: int| 0 <= i < after.len() implies before.contains(#[trigger] after[i])
        || lib_entry_from(d, after[i]) by {
        if mid.contains(after[i]) {
            let j = choose|j: int| 0 <= j < mid.len() && mid[j] == after[i];
            assert(before.contains(mid[j]) || lib_entry_from(d, mid[j]));
        }
    }
}

/// What holds of the types of a library while descriptions go in: they stay
/// in order and in the index, no name is lost, and no name comes in but
/// those that `named` tells.
pub open spec fn types_grow(
    before: OrdMap<Ty<LibRef>>,
    after: OrdMap<Ty<LibRef>>,
    index: Map<Seq<char>, Seq<u8>>,
    aliases: Set<Seq<char>>,
    named: spec_fn(Seq<char>) -> bool,
) -> bool {
    &&& after.wf()
    &&& types_indexed(after@, index, aliases)
    &&& forall|n: Seq<char>| before.has(n) ==> after.has(n)
    &&& forall|n: Seq<char>| after.has(n) ==> before.has(n) || named(n)
}

/// Translates the definition of every type with a name in the description
/// and puts it among the types.
fn add_named(
    d: &StenType,
    deps: &OrdMap<Dependency>,
    index: &TypeIndex,
    types: &mut OrdMap<Ty<LibRef>>,
) -> (r: Result<(), TranslateError>)
    requires
        desc_covered(*d, id_map(*index)),
        types_indexed(old(types)@, id_map(*index), aliases_of(*deps)),
    ensures
        types_grow(
            *old(types),
            *final(types),
            id_map(*index),
            aliases_of(*deps),
            |n: Seq<char>| desc_names(*d, n),
        ),
        lib_entries_from(*d, old(types)@, final(types)@),
        r is Ok ==> forall|n: Seq<char>| desc_names(*d, n) ==> final(types).has(n),
        translate_outcome(r, desc_all_fault(*d, aliases_of(*deps))),
    decreases d, 0int,
{
    proof {
        use_type_invariant(&*types);
    }
    match d {
        StenType::Inline(ty) => {
            let r = add_nested(ty, deps, index, types);
            proof {
                lemma_lib_entries_from_nested(*d, **ty, old(types)@, types@);
            }
            r
        },
        StenType::Named(name, ty) => {
            match translate_ty::<LibRef>(ty, deps, Ghost(id_map(*index))) {
                Ok(t) => {
                    proof {
                        lemma_desc_id(*d);
                        lemma_same_shape_id(**ty, t, Some(name@));
                    }
                    let ghost before = types@;
                    let ghost entry = Entry { key: *name, value: t };
                    let key = name.clone();
                    types.insert(key, t);
                    let ghost mid = types@;
                    proof {
                        assert forall|i: int| 0 <= i < mid.len() implies before.contains(
                            #[trigger] mid[i],
                        ) || mid[i] == entry by {
                            if mid.len() == before.len() {
                                let p = old(types).position(name@);
                                if i != p {
                                    assert(mid[i] == before[i]);
                                }
                            } else {
                                let p = choose|p: int|
                                    0 <= p <= before.len() && mid == before.insert(p, entry);
                                if i < p {
                                    assert(mid[i] == before[i]);
                                } else if i > p {
                                    assert(mid[i] == before[i - 1]);
                                }
                            }
                        }
                        assert(desc_defines(*d, entry.key@, **ty) && lib_ty_matches(
                            **ty,
                            entry.value,
                        ));
                        assert(lib_entry_from(*d, entry));
                        assert forall|i: int| 0 <= i < mid.len() implies {
                            &&& named_resolved(
                                id_map(*index),
                                (#[trigger] mid[i]).key@,
                                mid[i].value.spec_id(Some(mid[i].key@)),
                            )
                            &&& mid[i].value.resolved(id_map(*index), aliases_of(*deps))
                            &&& mid[i].value.invalid() is None
                        } by {
                            if before.contains(mid[i]) {
                                let j = choose|j: int| 0 <= j < before.len() && before[j] == mid[i];
                                assert(before[j].value.resolved(
                                    id_map(*index),
                                    aliases_of(*deps),
                                ));
                            }
                        }
                        assert(lib_entries_from(*d, before, mid));
                    }
                    let r = add_nested(ty, deps, index, types);
                    proof {
                        lemma_lib_entries_from_nested(*d, **ty, mid, types@);
                        lemma_lib_entries_chain(*d, before, mid, types@);
                    }
                    r
                },
                Err(e) => Err(e),
            }
        },
        StenType::Extern(_, _, _) => Ok(()),
    }
}

/// Does the same for each type nested in `ty`.
fn add_nested(
    ty: &Ty<StenType>,
    deps: &OrdMap<Dependency>,
    index: &TypeIndex,
    types: &mut OrdMap<Ty<LibRef>>,
) -> (r: Result<(), TranslateError>)
    requires
        refs_covered(*ty, id_map(*index)),
        types_indexed(old(types)@, id_map(*index), aliases_of(*deps)),
    ensures
        types_grow(
            *old(types),
            *final(types),
            id_map(*index),
            aliases_of(*deps),
            |n: Seq<char>| refs_names(*ty, n, 0),
        ),
        lib_entries_from_nested(*ty, old(types)@, final(types)@),
        r is Ok ==> forall|n: Seq<char>| refs_names(*ty, n, 0) ==> final(types).has(n),
        translate_outcome(r, refs_all_fault(*ty, aliases_of(*deps), 0)),
    decreases ty, 2int,
{
    proof {
        use_type_invariant(&*types);
    }
    match ty {
        Ty::Union(fields) => {
            proof {
                assert forall|i: int| 0 <= i < fields@.len() implies decreases_to!(*ty => #[trigger] fields@[i].ty) by {
                    lemma_refs_decrease(*ty, i);
                }
            }
            add_fields(ty, fields, deps, index, types)
        },
        Ty::Struct(fields) => {
            proof {
                assert forall|i: int| 0 <= i < fields@.len() implies decreases_to!(*ty => #[trigger] fields@[i].ty) by {
                    lemma_refs_decrease(*ty, i);
                }
            }
            add_fields(ty, fields, deps, index, types)
        },
        Ty::Array(r, _) => {
            assert(ty.refs()[0] == *r);
            proof {
                lemma_refs_all_fault_single(*ty, aliases_of(*deps));
            }
            add_named(r, deps, index, types)
        },
        Ty::List(r, _) => {
            assert(ty.refs()[0] == *r);
            proof {
                lemma_refs_all_fault_single(*ty, aliases_of(*deps));
            }
            add_named(r, deps, index, types)
        },
        Ty::SetOf(r, _) => {
            assert(ty.refs()[0] == *r);
            proof {
                lemma_refs_all_fault_single(*ty, aliases_of(*deps));
            }
            add_named(r, deps, index, types)
        },
        Ty::MapOf(_, r, _) => {
            assert(ty.refs()[0] == *r);
            proof {
                lemma_refs_all_fault_single(*ty, aliases_of(*deps));
            }
            add_named(r, deps, index, types)
        },
        _ => Ok(()),
    }
}

/// Does the same for the type of each field.
fn add_fields(
    ty: &Ty<StenType>,
    fields: &Vec<Field<StenType>>,
    deps: &OrdMap<Dependency>,
    index: &TypeIndex,
    types: &mut OrdMap<Ty<LibRef>>,
) -> (r: Result<(), TranslateError>)
    requires
        ty.refs() == fields@.map_values(|f: Field<StenType>| f.ty),
        forall|i: int| 0 <= i < fields@.len() ==> decreases_to!(*ty => #[trigger] fields@[i].ty),
        refs_covered(*ty, id_map(*index)),
        types_indexed(old(types)@, id_map(*index), aliases_of(*deps)),
    ensures
        types_grow(
            *old(types),
            *final(types),
            id_map(*index),
            aliases_of(*deps),
            |n: Seq<char>| refs_names(*ty, n, 0),
        ),
        lib_entries_from_nested(*ty, old(types)@, final(types)@),
        r is Ok ==> forall|n: Seq<char>| refs_names(*ty, n, 0) ==> final(types).has(n),
        translate_outcome(r, refs_all_fault(*ty, aliases_of(*deps), 0)),
    decreases ty, 1int,
{
    proof {
        use_type_invariant(&*types);
    }
    let mut i: usize = 0;
    while i < fields.len()
        invariant
            i <= fields.len(),
            ty.refs() == fields@.map_values(|f: Field<StenType>| f.ty),
            forall|i: int| 0 <= i < fields@.len() ==> decreases_to!(*ty => #[trigger] fields@[i].ty),
            refs_covered(*ty, id_map(*index)),
            types_grow(
                *old(types),
                *types,
                id_map(*index),
                aliases_of(*deps),
                |n: Seq<char>| refs_names(*ty, n, 0),
            ),
            lib_entries_from_nested(*ty, old(types)@, types@),
            forall|n: Seq<char>, j: int|
                0 <= j < i && desc_names(#[trigger] ty.refs()[j], n) ==> #[trigger] types.has(n),
            refs_all_fault(*ty, aliases_of(*deps), 0) == refs_all_fault(
                *ty,
                aliases_of(*deps),
                i as int,
            ),
        decreases fields.len() - i,
    {
        assert(ty.refs()[i as int] == fields@[i as int].ty);
        let ghost mid = types@;
        let ghost mid_map = *types;
        let r = add_named(&fields[i].ty, deps, index, types);
        proof {
            assert forall|j: int| 0 <= j < types@.len() implies old(types)@.contains(
                #[trigger] types@[j],
            ) || exists|k: int|
                0 <= k < ty.refs().len() && lib_entry_from(#[trigger] ty.refs()[k], types@[j]) by {
                if mid.contains(types@[j]) {
                    let q = choose|q: int| 0 <= q < mid.len() && mid[q] == types@[j];
                    assert(old(types)@.contains(mid[q]) || exists|k: int|
                        0 <= k < ty.refs().len() && lib_entry_from(
                            #[trigger] ty.refs()[k],
                            mid[q],
                        ));
                } else {
                    assert(lib_entry_from(ty.refs()[i as int], types@[j]));
                }
            }
            assert forall|n: Seq<char>| types.has(n) implies old(types).has(n) || refs_names(
                *ty,
                n,
                0,
            ) by {
                if !mid_map.has(n) {
                    assert(desc_names(ty.refs()[i as int], n));
                }
            }
        }
        match r {
            Ok(()) => {},
            Err(e) => {
                return Err(e);
            },
        }
        i += 1;
    }
    Ok(())
}

/// A library under construction: descriptions go in one by one, and the
/// library comes out at the end.
#[derive(Debug)]
pub struct LibBuilder {
    name: LibName,
    dependencies: OrdMap<Dependency>,
    index: TypeIndex,
    types: OrdMap<Ty<LibRef>>,
}

impl LibBuilder {
    /// The name of the library.
    pub closed spec fn spec_name(&self) -> Seq<char> {
        self.name@
    }

    /// The dependencies, in the order of their aliases.
    pub closed spec fn spec_dependencies(&self) -> Seq<Entry<Dependency>> {
        self.dependencies@
    }

    /// The aliases of the dependencies.
    pub closed spec fn spec_aliases(&self) -> Set<Seq<char>> {
        aliases_of(self.dependencies)
    }

    /// The index: the identifier of every type with a name that has gone in.
    pub closed spec fn spec_index(&self) -> Map<Seq<char>, Seq<u8>> {
        id_map(self.index)
    }

    /// The types that the library holds so far, in the order of their names.
    pub closed spec fn spec_types(&self) -> Seq<Entry<Ty<LibRef>>> {
        self.types@
    }

    /// Whether the library holds a type under the name `n` so far.
    pub open spec fn has_type(&self, n: Seq<char>) -> bool {
        keys_of(self.spec_types()).contains(n)
    }

    /// Every type stands in the index under its name with its identifier
    /// and resolves against the index, and the index holds no other name.
    pub open spec fn consistent(&self) -> bool {
        &&& types_indexed(self.spec_types(), self.spec_index(), self.spec_aliases())
        &&& forall|n: Seq<char>| self.spec_index().dom().contains(n) ==> self.has_type(n)
    }

    #[verifier::type_invariant]
    closed spec fn inv(&self) -> bool {
        &&& types_indexed(self.types@, id_map(self.index), aliases_of(self.dependencies))
        &&& forall|n: Seq<char>| id_map(self.index).dom().contains(n) ==> self.types.has(n)
    }

    /// A library without types, with the given name and dependencies.
    pub fn new(name: LibName, dependencies: OrdMap<Dependency>) -> (r: LibBuilder)
        ensures
            r.spec_name() == name@,
            r.spec_dependencies() == dependencies@,
            r.spec_aliases() == aliases_of(dependencies),
            r.spec_index() == Map::<Seq<char>, Seq<u8>>::empty(),
            r.spec_types().len() == 0,
            r.consistent(),
    {
        let index: TypeIndex = OrdMap::new();
        let types: OrdMap<Ty<LibRef>> = OrdMap::new();
        assert(id_map(index) =~= Map::<Seq<char>, Seq<u8>>::empty());
        LibBuilder { name, dependencies, index, types }
    }

    /// Takes a description in: every type with a name in it, at any depth,
    /// is entered into the index and put among the types of the library, with
    /// the types nested in it as references. Fails where a name would stand
    /// for two types; and else with the first fault in the order in which the
    /// description is gone through: a type that does not meet its invariants,
    /// a type without a name that nests too deep, or a type of another
    /// library under an alias that is not declared.
    pub fn transpile(self, root: &StenType) -> (r: Result<LibBuilder, TranslateError>)
        ensures
            r matches Ok(b) ==> index_desc(*root, self.spec_index()) == Ok::<
                Map<Seq<char>, Seq<u8>>,
                Seq<char>,
            >(b.spec_index()),
            r is Ok <==> index_desc(*root, self.spec_index()) is Ok && desc_all_fault(
                *root,
                self.spec_aliases(),
            ) is None,
            r matches Ok(b) ==> b.spec_name() == self.spec_name() && b.spec_dependencies()
                == self.spec_dependencies() && b.spec_aliases() == self.spec_aliases(),
            r matches Ok(b) ==> forall|n: Seq<char>|
                #[trigger] b.has_type(n) <==> self.has_type(n) || desc_names(*root, n),
            r matches Ok(b) ==> lib_entries_from(*root, self.spec_types(), b.spec_types()),
            r matches Ok(b) ==> b.consistent(),
            r matches Err(e) ==> match index_desc(*root, self.spec_index()) {
                Err(n) => e matches TranslateError::DuplicateName(m) && m@ == n,
                Ok(_) => desc_all_fault(*root, self.spec_aliases()) == Some(e.fault()),
            },
    {
        proof {
            use_type_invariant(&self);
        }
        let LibBuilder { name, dependencies, index, types } = self;
        let mut index = index;
        let mut types = types;
        proof {
            use_type_invariant(&types);
        }
        let ghost before = id_map(index);
        let ghost aliases = aliases_of(dependencies);
        match root.index(&mut index) {
            Ok(()) => {},
            Err(e) => {
                return Err(e);
            },
        }
        let ghost after = id_map(index);
        proof {
            lemma_index_desc(*root, before);
            assert forall|i: int| 0 <= i < types@.len() implies {
                &&& named_resolved(
                    after,
                    (#[trigger] types@[i]).key@,
                    types@[i].value.spec_id(Some(types@[i].key@)),
                )
                &&& types@[i].value.resolved(after, aliases)
                &&& types@[i].value.invalid() is None
            } by {
                assert(before.dom().contains(types@[i].key@));
                types@[i].value.lemma_resolved_extends(before, after, aliases);
            }
        }
        let ghost old_types = types;
        match add_named(root, &dependencies, &index, &mut types) {
            Ok(()) => {
                proof {
                    assert forall|n: Seq<char>| after.dom().contains(n) implies types.has(n) by {
                        lemma_index_names(*root, before, n);
                    }
                }
                let b = LibBuilder { name, dependencies, index, types };
                proof {
                    assert forall|n: Seq<char>| #[trigger]
                        b.has_type(n) <==> self.has_type(n) || desc_names(*root, n) by {
                        assert(b.has_type(n) == b.types.has(n));
                        assert(self.has_type(n) == old_types.has(n));
                    }
                    assert forall|n: Seq<char>| b.spec_index().dom().contains(n) implies b.has_type(
                        n,
                    ) by {
                        assert(b.types.has(n));
                    }
                }
                Ok(b)
            },
            Err(e) => Err(e),
        }
    }

    /// The identifier that the library would have with the types that it
    /// holds so far, if it holds no more types and dependencies than a
    /// library can.
    pub fn id(&self) -> (r: Option<crate::typelib::id::TypeLibId>)
        ensures
            match r {
                Some(id) => id@ == crate::ast::id::tagged_hash(
                    crate::typelib::id::lib_commitment(
                        self.spec_name(),
                        self.spec_dependencies(),
                        self.spec_types(),
                    ),
                ),
                None => self.spec_dependencies().len() > MAX_DEPENDENCIES
                    || self.spec_types().len() > MAX_TYPES,
            },
    {
        if self.dependencies.len() > MAX_DEPENDENCIES || self.types.len() > MAX_TYPES {
            None
        } else {
            Some(crate::typelib::id::lib_id(&self.name, &self.dependencies, &self.types))
        }
    }

    /// Closes the library: it has to hold a type and no more than 65535, and
    /// no more than 255 dependencies.
    pub fn compile(self) -> (r: Result<TypeLib, TranslateError>)
        ensures
            r is Ok <==> self.spec_dependencies().len() <= MAX_DEPENDENCIES && 1
                <= self.spec_types().len() <= MAX_TYPES,
            match r {
                Ok(lib) => lib.wf() && lib.spec_name() == self.spec_name()
                    && lib.spec_dependencies() == self.spec_dependencies() && lib.spec_types()
                    == self.spec_types(),
                Err(e) => e is Confinement && Some(e.fault()) == parts_fault(
                    self.spec_dependencies(),
                    self.spec_types(),
                ),
            },
    {
        proof {
            use_type_invariant(&self);
        }
        let LibBuilder { name, dependencies, index, types } = self;
        proof {
            use_type_invariant(&types);
            let from = id_map(index);
            let ids = type_ids(types@);
            let aliases = alias_set(dependencies@);
            assert(aliases =~= aliases_of(dependencies));
            assert forall|n: Seq<char>| #[trigger] from.dom().contains(n) implies ids.dom().contains(
                n,
            ) && ids[n] == from[n] by {
                assert(types.has(n));
                let c = choose|c: int| 0 <= c < types@.len() && types@[c].key@ == n;
                types.lemma_has(n);
                assert(types@[c].key@ == n);
            }
            assert forall|i: int| 0 <= i < types@.len() implies (#[trigger] types@[i]).value.resolved(
                ids,
                aliases,
            ) by {
                types@[i].value.lemma_resolved_extends(from, ids, aliases);
            }
            crate::typelib::type_lib::lemma_types_unresolved(types@, ids, aliases, 0);
            crate::typelib::type_lib::lemma_types_invalid(types@, 0);
        }
        TypeLib::new(name, dependencies, types)
    }
}

} // verus!
