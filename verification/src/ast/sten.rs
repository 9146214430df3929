//! Descriptions of types: trees in which every nested type stands in
//! place, with its name where it has one.

use vstd::prelude::*;
use crate::ast::id::{id_views, ref_ids, tagged_hash, SemId, TypeRef};
use crate::ast::path::{resolve, NestedRef, Step};
use crate::ast::ty::Ty;
use crate::util::{LibAlias, TypeName};

verus! {

/// A nested type in a description.
#[derive(Eq, PartialEq, Debug)]
pub enum StenType {
    /// A type without a name, given by its definition.
    Inline(Box<Ty<StenType>>),
    /// A type with a name, given by its definition.
    Named(TypeName, Box<Ty<StenType>>),
    /// A type of another library, given by its name there, the alias of the
    /// library and its identifier.
    Extern(TypeName, LibAlias, SemId),
}

/// The identifier of a described type: that of its definition, under its
/// name where it has one; the given identifier for a type of another
/// library.
pub open spec fn desc_id(d: StenType) -> Seq<u8>
    decreases d, 0int,
{
    match d {
        StenType::Inline(ty) => tagged_hash(
            ty.commitment_with(None, desc_ids(*ty, ty.refs().len() as int)),
        ),
        StenType::Named(name, ty) => tagged_hash(
            ty.commitment_with(Some(name@), desc_ids(*ty, ty.refs().len() as int)),
        ),
        StenType::Extern(_, _, id) => id@,
    }
}

/// The identifiers of the first `n` types nested in `ty`.
pub open spec fn desc_ids(ty: Ty<StenType>, n: int) -> Seq<Seq<u8>>
    decreases ty, n,
{
    if n <= 0 || n > ty.refs().len() {
        Seq::empty()
    } else {
        proof {
            lemma_refs_decrease(ty, n - 1);
        }
        desc_ids(ty, n - 1).push(desc_id(ty.refs()[n - 1]))
    }
}

/// A type nested in a type is smaller than that type.
pub proof fn lemma_refs_decrease<R>(ty: Ty<R>, i: int)
    requires
        0 <= i < ty.refs().len(),
    ensures
        decreases_to!(ty => ty.refs()[i]),
{
    broadcast use vstd::std_specs::vec::axiom_vec_index_decreases;

    match ty {
        Ty::Union(fields) => {
            assert(decreases_to!(fields => fields[i]));
            assert(ty.refs()[i] == fields[i].ty);
        },
        Ty::Struct(fields) => {
            assert(decreases_to!(fields => fields[i]));
            assert(ty.refs()[i] == fields[i].ty);
        },
        _ => {},
    }
}

/// Computes the identifier of a described type.
pub fn desc_sem_id(d: &StenType) -> (r: SemId)
    ensures
        r@ == desc_id(*d),
    decreases d, 0int,
{
    match d {
        StenType::Inline(ty) => {
            let ids = desc_sem_ids(ty);
            ty.id_with(None, &ids)
        },
        StenType::Named(name, ty) => {
            let ids = desc_sem_ids(ty);
            ty.id_with(Some(name), &ids)
        },
        StenType::Extern(_, _, id) => *id,
    }
}

/// Computes the identifiers of the types nested in `ty`.
pub fn desc_sem_ids(ty: &Ty<StenType>) -> (ids: Vec<SemId>)
    ensures
        ids@.len() == ty.refs().len(),
        id_views(ids@) == desc_ids(*ty, ty.refs().len() as int),
    decreases ty, 1int,
{
    let mut ids: Vec<SemId> = Vec::new();
    match ty {
        Ty::Union(fields) => {
            let mut i: usize = 0;
            while i < fields.len()
                invariant
                    i <= fields.len(),
                    *ty == Ty::<StenType>::Union(*fields),
                    ids@.len() == i,
                    id_views(ids@) == desc_ids(*ty, i as int),
                decreases fields.len() - i,
            {
                proof {
                    lemma_refs_decrease(*ty, i as int);
                }
                ids.push(desc_sem_id(&fields[i].ty));
                assert(id_views(ids@) =~= desc_ids(*ty, i + 1));
                i += 1;
            }
        },
        Ty::Struct(fields) => {
            let mut i: usize = 0;
            while i < fields.len()
                invariant
                    i <= fields.len(),
                    *ty == Ty::<StenType>::Struct(*fields),
                    ids@.len() == i,
                    id_views(ids@) == desc_ids(*ty, i as int),
                decreases fields.len() - i,
            {
                proof {
                    lemma_refs_decrease(*ty, i as int);
                }
                ids.push(desc_sem_id(&fields[i].ty));
                assert(id_views(ids@) =~= desc_ids(*ty, i + 1));
                i += 1;
            }
        },
        Ty::Array(r, _) => {
            ids.push(desc_sem_id(r));
            assert(desc_ids(*ty, 0) =~= Seq::empty());
            assert(id_views(ids@) =~= desc_ids(*ty, 1));
        },
        Ty::List(r, _) => {
            ids.push(desc_sem_id(r));
            assert(desc_ids(*ty, 0) =~= Seq::empty());
            assert(id_views(ids@) =~= desc_ids(*ty, 1));
        },
        Ty::SetOf(r, _) => {
            ids.push(desc_sem_id(r));
            assert(desc_ids(*ty, 0) =~= Seq::empty());
            assert(id_views(ids@) =~= desc_ids(*ty, 1));
        },
        Ty::MapOf(_, r, _) => {
            ids.push(desc_sem_id(r));
            assert(desc_ids(*ty, 0) =~= Seq::empty());
            assert(id_views(ids@) =~= desc_ids(*ty, 1));
        },
        _ => {
            assert(id_views(ids@) =~= desc_ids(*ty, 0));
        },
    }
    ids
}

impl TypeRef for StenType {
    open spec fn sem_id(&self) -> Seq<u8> {
        desc_id(*self)
    }

    fn id(&self) -> (r: SemId) {
        desc_sem_id(self)
    }
}

impl NestedRef for StenType {
    open spec fn nested(&self) -> Option<Ty<StenType>> {
        match self {
            StenType::Inline(ty) => Some(**ty),
            StenType::Named(_, ty) => Some(**ty),
            StenType::Extern(_, _, _) => None,
        }
    }

    fn as_ty(&self) -> (r: Option<&Ty<StenType>>) {
        match self {
            StenType::Inline(ty) => Some(&**ty),
            StenType::Named(_, ty) => Some(&**ty),
            StenType::Extern(_, _, _) => None,
        }
    }
}

/// The identifiers of the types nested in a description are those that the
/// references to them give.
pub proof fn lemma_desc_ids(ty: Ty<StenType>, n: int)
    requires
        0 <= n <= ty.refs().len(),
    ensures
        desc_ids(ty, n) == ref_ids(ty.refs()).subrange(0, n),
    decreases n,
{
    if n > 0 {
        lemma_desc_ids(ty, n - 1);
        assert(desc_ids(ty, n) =~= ref_ids(ty.refs()).subrange(0, n));
    } else {
        assert(desc_ids(ty, n) =~= ref_ids(ty.refs()).subrange(0, n));
    }
}

/// A described type without a name has the identifier of its definition; one
/// with a name has the identifier of its definition under that name.
pub proof fn lemma_desc_id(d: StenType)
    ensures
        d matches StenType::Inline(ty) ==> desc_id(d) == ty.spec_id(None),
        d matches StenType::Named(name, ty) ==> desc_id(d) == ty.spec_id(Some(name@)),
{
    match d {
        StenType::Inline(ty) => {
            lemma_desc_ids(*ty, ty.refs().len() as int);
            assert(ref_ids(ty.refs()).subrange(0, ty.refs().len() as int) =~= ref_ids(ty.refs()));
        },
        StenType::Named(_, ty) => {
            lemma_desc_ids(*ty, ty.refs().len() as int);
            assert(ref_ids(ty.refs()).subrange(0, ty.refs().len() as int) =~= ref_ids(ty.refs()));
        },
        _ => {},
    }
}

/// Following a path with one more step is following the path and then
/// taking the step.
pub proof fn lemma_resolve_push<R: NestedRef>(ty: Ty<R>, path: Seq<Step>, step: Step, from: int)
    requires
        0 <= from <= path.len(),
    ensures
        resolve(ty, path.push(step), from) == (match resolve(ty, path, from) {
            Ok(parent) => match parent.step_into(step) {
                Some(next) => Ok(next),
                None => Err(path.len() as int),
            },
            Err(k) => Err(k),
        }),
    decreases path.len() - from,
{
    let longer = path.push(step);
    if from < path.len() {
        assert(longer[from] == path[from]);
        match ty.step_into(path[from]) {
            Some(next) => {
                lemma_resolve_push(next, path, step, from + 1);
            },
            None => {},
        }
    } else {
        assert(longer[from] == step);
        match ty.step_into(step) {
            Some(next) => {
                assert(resolve(next, longer, from + 1) == Ok::<Ty<R>, int>(next));
            },
            None => {},
        }
    }
}

/// A path leads to the type that the reference stands for: where a step
/// selects a reference to a type without a name, the type reached has,
/// without a name, the identifier of the reference; where it selects a
/// reference to a type with a name, the type reached has that identifier
/// under that name.
pub proof fn law_path_soundness(ty: Ty<StenType>, path: Seq<Step>, step: Step)
    requires
        resolve(ty, path, 0) is Ok,
        resolve(ty, path, 0)->Ok_0.step_ref(step) is Some,
        !(resolve(ty, path, 0)->Ok_0.step_ref(step)->0 is Extern),
    ensures
        resolve(ty, path.push(step), 0) is Ok,
        resolve(ty, path, 0)->Ok_0.step_ref(step)->0 is Inline ==> resolve(
            ty,
            path.push(step),
            0,
        )->Ok_0.spec_id(None) == resolve(ty, path, 0)->Ok_0.step_ref(step)->0.sem_id(),
        resolve(ty, path, 0)->Ok_0.step_ref(step)->0 matches StenType::Named(name, _)
            ==> resolve(ty, path.push(step), 0)->Ok_0.spec_id(Some(name@)) == resolve(
            ty,
            path,
            0,
        )->Ok_0.step_ref(step)->0.sem_id(),
{
    lemma_resolve_push(ty, path, step, 0);
    lemma_desc_id(resolve(ty, path, 0)->Ok_0.step_ref(step)->0);
}

} // verus!
