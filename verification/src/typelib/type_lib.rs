//! The forms of reference inside a library, and the library itself.
//!
//! Inline types nest through four forms of reference, each holding types over
//! the next form, and the last one over key types. A type that would nest
//! deeper has to be named.

use vstd::prelude::*;
use vstd::string::*;
use crate::ast::id::{SemId, TypeRef};
use crate::ast::text::RefText;
use crate::ast::ty::{fault_outcome, Field, KeyTy, TagFault, Ty, TyError};
use crate::ord_map::{keys_of, strictly_sorted, Entry, OrdMap};
use crate::typelib::id::TypeLibId;
pub use crate::util::{LibAlias, LibName};
use crate::util::{valid_ident, ConfinementError, SemVer, TypeName};

verus! {

/// Why a library could not be built.
#[derive(Clone, Eq, PartialEq, Debug)]
pub enum TranslateError {
    /// Two different types stand under one name, or one type under two.
    DuplicateName(TypeName),
    /// A reference by name has no type in the library.
    UnknownType(TypeName),
    /// A reference to another library uses an alias that is not declared.
    UnknownDependency(LibAlias),
    /// A type without a name nests deeper than inline types can.
    TooDeep,
    /// The library holds no type, or too many types or dependencies.
    Confinement(ConfinementError),
    /// The root of a description has no name under which its identifier
    /// could stand.
    UnknownId(SemId),
    /// A type does not meet its invariants.
    InvalidType(TyError),
}

/// The index of the types with a name: the identifier of each under its
/// name.
pub type TypeIndex = OrdMap<SemId>;

/// The identifiers that an index holds, by name.
pub open spec fn id_map(index: TypeIndex) -> Map<Seq<char>, Seq<u8>> {
    Map::new(|name: Seq<char>| index.has(name), |name: Seq<char>| index.value(name)@)
}

/// A reference that does not resolve: by name to a type, or to another
/// library by its alias.
pub enum Unresolved {
    Type(Seq<char>),
    Dependency(Seq<char>),
}

/// Whether the outcome of a check is the one that the model gives: success
/// where nothing is unresolved, else the error that names what is.
pub open spec fn check_outcome(r: Result<(), TranslateError>, model: Option<Unresolved>) -> bool {
    match r {
        Ok(()) => model is None,
        Err(e) => match e {
            TranslateError::UnknownType(name) => model == Some(Unresolved::Type(name@)),
            TranslateError::UnknownDependency(alias) => model == Some(
                Unresolved::Dependency(alias@),
            ),
            _ => false,
        },
    }
}

/// A form of reference that can stand in a library.
pub trait LibForm: TypeRef + RefText {
    /// Every reference by name in it resolves: a named one to a type of
    /// `types` that has the identifier which the reference carries, an
    /// external one to an alias of `aliases`.
    spec fn resolved(&self, types: Map<Seq<char>, Seq<u8>>, aliases: Set<Seq<char>>) -> bool;

    /// What resolves against some types resolves against any types that
    /// hold them.
    proof fn lemma_resolved_extends(
        &self,
        a: Map<Seq<char>, Seq<u8>>,
        b: Map<Seq<char>, Seq<u8>>,
        aliases: Set<Seq<char>>,
    )
        requires
            self.resolved(a, aliases),
            map_extends(a, b),
        ensures
            self.resolved(b, aliases),
    ;

    /// The first reference by name in it that does not resolve, where the
    /// types nested in a type are taken in their order.
    spec fn unresolved(&self, types: Map<Seq<char>, Seq<u8>>, aliases: Set<Seq<char>>) -> Option<
        Unresolved,
    >;

    /// Nothing is unresolved where everything resolves, and only there.
    proof fn lemma_unresolved(&self, types: Map<Seq<char>, Seq<u8>>, aliases: Set<Seq<char>>)
        ensures
            self.unresolved(types, aliases) is None <==> self.resolved(types, aliases),
    ;

    /// Checks that every reference by name resolves, and fails with the
    /// first that does not.
    fn check(&self, index: &TypeIndex, deps: &OrdMap<Dependency>) -> (r: Result<
        (),
        TranslateError,
    >)
        ensures
            check_outcome(r, self.unresolved(id_map(*index), aliases_of(*deps))),
    ;

    /// The number of forms of reference that inline types nested in this
    /// form can still pass through.
    spec fn depth() -> nat;

    /// The length of the longest chain of inline types that begins with this
    /// reference: none where it refers by name or is a key type.
    spec fn inline_depth(&self) -> nat;

    /// No chain of inline types is longer than the forms of reference allow.
    proof fn lemma_inline_depth(&self)
        ensures
            self.inline_depth() <= Self::depth(),
    ;

    /// The first fault of an inline type in it, where a type comes before
    /// the types nested in it, and those are taken in their order.
    spec fn invalid(&self) -> Option<TagFault>;

    /// Checks that every inline type in it meets its invariants, and fails
    /// with the first fault.
    fn validate(&self) -> (r: Result<(), TyError>)
        ensures
            fault_outcome(r, self.invalid()),
    ;
}

/// The first fault among `refs` from position `from` on.
pub open spec fn invalid_from<R: LibForm>(refs: Seq<R>, from: int) -> Option<TagFault>
    decreases refs.len() - from,
{
    if from < 0 || from >= refs.len() {
        None
    } else {
        match refs[from].invalid() {
            Some(fault) => Some(fault),
            None => invalid_from(refs, from + 1),
        }
    }
}

/// There is no fault from `from` on where no reference from there on has
/// one, and only there.
pub proof fn lemma_invalid_from<R: LibForm>(refs: Seq<R>, from: int)
    requires
        0 <= from,
    ensures
        invalid_from(refs, from) is None <==> forall|i: int|
            from <= i < refs.len() ==> (#[trigger] refs[i]).invalid() is None,
    decreases refs.len() - from,
{
    if from < refs.len() {
        lemma_invalid_from(refs, from + 1);
        if invalid_from(refs, from) is None {
            assert forall|i: int| from <= i < refs.len() implies (#[trigger] refs[i]).invalid()
                is None by {
                if i > from {
                }
            }
        }
    }
}

/// Among one reference, the first fault is what that reference gives.
pub proof fn lemma_invalid_single<R: LibForm>(refs: Seq<R>)
    requires
        refs.len() == 1,
    ensures
        invalid_from(refs, 0) == refs[0].invalid(),
{
    assert(invalid_from(refs, 1) is None);
}

/// Checks the types of fields or alternatives from the first on.
fn validate_fields<R: LibForm>(fields: &Vec<Field<R>>) -> (r: Result<(), TyError>)
    ensures
        fault_outcome(r, invalid_from(fields@.map_values(|f: Field<R>| f.ty), 0)),
{
    let ghost refs = fields@.map_values(|f: Field<R>| f.ty);
    let mut i: usize = 0;
    while i < fields.len()
        invariant
            i <= fields.len(),
            refs == fields@.map_values(|f: Field<R>| f.ty),
            invalid_from(refs, 0) == invalid_from(refs, i as int),
        decreases fields.len() - i,
    {
        assert(refs[i as int] == fields@[i as int].ty);
        match fields[i].ty.validate() {
            Ok(()) => {},
            Err(e) => {
                return Err(e);
            },
        }
        i += 1;
    }
    Ok(())
}

/// The length of the longest chain of inline types that begins with one of
/// the first `n` references.
pub open spec fn refs_depth<R: LibForm>(refs: Seq<R>, n: int) -> nat
    decreases n,
{
    if n <= 0 || n > refs.len() {
        0
    } else if refs[n - 1].inline_depth() > refs_depth(refs, n - 1) {
        refs[n - 1].inline_depth()
    } else {
        refs_depth(refs, n - 1)
    }
}

/// No chain among the first `n` references is longer than the form of
/// reference allows.
pub proof fn lemma_refs_depth<R: LibForm>(refs: Seq<R>, n: int)
    ensures
        refs_depth(refs, n) <= R::depth(),
    decreases n,
{
    if 0 < n <= refs.len() {
        lemma_refs_depth(refs, n - 1);
        refs[n - 1].lemma_inline_depth();
    }
}

/// The first unresolved reference among `refs` from position `from` on.
pub open spec fn unresolved_from<R: LibForm>(
    refs: Seq<R>,
    types: Map<Seq<char>, Seq<u8>>,
    aliases: Set<Seq<char>>,
    from: int,
) -> Option<Unresolved>
    decreases refs.len() - from,
{
    if from < 0 || from >= refs.len() {
        None
    } else {
        match refs[from].unresolved(types, aliases) {
            Some(u) => Some(u),
            None => unresolved_from(refs, types, aliases, from + 1),
        }
    }
}

/// Nothing is unresolved from `from` on where every reference from there on
/// resolves, and only there.
pub proof fn lemma_unresolved_from<R: LibForm>(
    refs: Seq<R>,
    types: Map<Seq<char>, Seq<u8>>,
    aliases: Set<Seq<char>>,
    from: int,
)
    requires
        0 <= from,
    ensures
        unresolved_from(refs, types, aliases, from) is None <==> forall|i: int|
            from <= i < refs.len() ==> (#[trigger] refs[i]).resolved(types, aliases),
    decreases refs.len() - from,
{
    if from < refs.len() {
        refs[from].lemma_unresolved(types, aliases);
        lemma_unresolved_from(refs, types, aliases, from + 1);
        if unresolved_from(refs, types, aliases, from) is None {
            assert forall|i: int| from <= i < refs.len() implies (#[trigger] refs[i]).resolved(
                types,
                aliases,
            ) by {
                if i > from {
                }
            }
        }
    }
}

/// What a reference by name to a type of the library has to say: the first
/// unresolved reference is that name, unless the type stands there with the
/// identifier.
pub open spec fn named_unresolved(types: Map<Seq<char>, Seq<u8>>, name: Seq<char>, id: Seq<u8>) -> Option<
    Unresolved,
> {
    if named_resolved(types, name, id) {
        None
    } else {
        Some(Unresolved::Type(name))
    }
}

/// What a reference to another library has to say.
pub open spec fn extern_unresolved(aliases: Set<Seq<char>>, alias: Seq<char>) -> Option<
    Unresolved,
> {
    if aliases.contains(alias) {
        None
    } else {
        Some(Unresolved::Dependency(alias))
    }
}

/// Checks a reference by name to a type of the library.
fn check_named(index: &TypeIndex, name: &TypeName, id: &SemId) -> (r: Result<(), TranslateError>)
    ensures
        check_outcome(r, named_unresolved(id_map(*index), name@, id@)),
{
    match index.get(name) {
        Some(found) => if found.same(id) {
            Ok(())
        } else {
            Err(TranslateError::UnknownType(name.clone()))
        },
        None => Err(TranslateError::UnknownType(name.clone())),
    }
}

/// Checks a reference to another library.
fn check_extern(deps: &OrdMap<Dependency>, alias: &LibAlias) -> (r: Result<(), TranslateError>)
    ensures
        check_outcome(r, extern_unresolved(aliases_of(*deps), alias@)),
{
    if deps.contains_key(alias) {
        Ok(())
    } else {
        Err(TranslateError::UnknownDependency(alias.clone()))
    }
}

/// Checks the types of fields or alternatives from the first on.
fn check_fields<R: LibForm>(
    fields: &Vec<crate::ast::ty::Field<R>>,
    index: &TypeIndex,
    deps: &OrdMap<Dependency>,
) -> (r: Result<(), TranslateError>)
    ensures
        check_outcome(
            r,
            unresolved_from(
                fields@.map_values(|f: crate::ast::ty::Field<R>| f.ty),
                id_map(*index),
                aliases_of(*deps),
                0,
            ),
        ),
{
    let ghost refs = fields@.map_values(|f: crate::ast::ty::Field<R>| f.ty);
    let mut i: usize = 0;
    while i < fields.len()
        invariant
            i <= fields.len(),
            refs == fields@.map_values(|f: crate::ast::ty::Field<R>| f.ty),
            unresolved_from(refs, id_map(*index), aliases_of(*deps), 0) == unresolved_from(
                refs,
                id_map(*index),
                aliases_of(*deps),
                i as int,
            ),
        decreases fields.len() - i,
    {
        assert(refs[i as int] == fields@[i as int].ty);
        match fields[i].ty.check(index, deps) {
            Ok(()) => {},
            Err(e) => {
                return Err(e);
            },
        }
        i += 1;
    }
    Ok(())
}

/// `b` holds every name of `a`, with the same identifier.
pub open spec fn map_extends(a: Map<Seq<char>, Seq<u8>>, b: Map<Seq<char>, Seq<u8>>) -> bool {
    forall|n: Seq<char>| #[trigger] a.dom().contains(n) ==> b.dom().contains(n) && b[n] == a[n]
}

impl<R: LibForm> Ty<R> {
    /// Every reference by name in the type resolves.
    pub open spec fn resolved(
        &self,
        types: Map<Seq<char>, Seq<u8>>,
        aliases: Set<Seq<char>>,
    ) -> bool {
        forall|i: int|
            0 <= i < self.refs().len() ==> (#[trigger] self.refs()[i]).resolved(types, aliases)
    }

    /// The first fault of the type or of an inline type nested in it, at any
    /// depth: the type itself comes first, then the types nested in it in
    /// their order.
    pub open spec fn invalid(&self) -> Option<TagFault> {
        match self.fault() {
            Some(fault) => Some(fault),
            None => invalid_from(self.refs(), 0),
        }
    }

    /// A type is without fault at any depth where it meets its invariants
    /// and no type nested in it has a fault, and only there.
    pub proof fn lemma_invalid(&self)
        ensures
            self.invalid() is None <==> self.wf() && forall|i: int|
                0 <= i < self.refs().len() ==> (#[trigger] self.refs()[i]).invalid() is None,
    {
        self.lemma_fault();
        lemma_invalid_from(self.refs(), 0);
    }

    /// Checks that the type and every inline type nested in it meet their
    /// invariants, and fails with the first fault.
    pub fn validate(&self) -> (r: Result<(), TyError>)
        ensures
            fault_outcome(r, self.invalid()),
    {
        match self.check_wf() {
            Ok(()) => {},
            Err(e) => {
                return Err(e);
            },
        }
        match self {
            Ty::Union(fields) => validate_fields(fields),
            Ty::Struct(fields) => validate_fields(fields),
            Ty::Array(r, _) => {
                proof {
                    lemma_invalid_single(self.refs());
                }
                r.validate()
            },
            Ty::List(r, _) => {
                proof {
                    lemma_invalid_single(self.refs());
                }
                r.validate()
            },
            Ty::SetOf(r, _) => {
                proof {
                    lemma_invalid_single(self.refs());
                }
                r.validate()
            },
            Ty::MapOf(_, r, _) => {
                proof {
                    lemma_invalid_single(self.refs());
                }
                r.validate()
            },
            _ => Ok(()),
        }
    }

    /// The length of the longest chain of inline types nested in the type.
    pub open spec fn inline_depth(&self) -> nat {
        refs_depth(self.refs(), self.refs().len() as int)
    }

    /// The first reference by name in the type that does not resolve.
    pub open spec fn unresolved(
        &self,
        types: Map<Seq<char>, Seq<u8>>,
        aliases: Set<Seq<char>>,
    ) -> Option<Unresolved> {
        unresolved_from(self.refs(), types, aliases, 0)
    }

    /// Nothing is unresolved where everything resolves, and only there.
    pub proof fn lemma_unresolved(&self, types: Map<Seq<char>, Seq<u8>>, aliases: Set<Seq<char>>)
        ensures
            self.unresolved(types, aliases) is None <==> self.resolved(types, aliases),
    {
        lemma_unresolved_from(self.refs(), types, aliases, 0);
    }

    /// Checks that every reference by name in the type resolves, and fails
    /// with the first that does not.
    pub fn check(&self, index: &TypeIndex, deps: &OrdMap<Dependency>) -> (r: Result<
        (),
        TranslateError,
    >)
        ensures
            check_outcome(r, self.unresolved(id_map(*index), aliases_of(*deps))),
    {
        match self {
            Ty::Union(fields) => check_fields(fields, index, deps),
            Ty::Struct(fields) => check_fields(fields, index, deps),
            Ty::Array(r, _) => {
                proof {
                    lemma_unresolved_single(self.refs(), id_map(*index), aliases_of(*deps));
                }
                r.check(index, deps)
            },
            Ty::List(r, _) => {
                proof {
                    lemma_unresolved_single(self.refs(), id_map(*index), aliases_of(*deps));
                }
                r.check(index, deps)
            },
            Ty::SetOf(r, _) => {
                proof {
                    lemma_unresolved_single(self.refs(), id_map(*index), aliases_of(*deps));
                }
                r.check(index, deps)
            },
            Ty::MapOf(_, r, _) => {
                proof {
                    lemma_unresolved_single(self.refs(), id_map(*index), aliases_of(*deps));
                }
                r.check(index, deps)
            },
            _ => Ok(()),
        }
    }

    /// What resolves against some types resolves against any types that
    /// hold them.
    pub proof fn lemma_resolved_extends(
        &self,
        a: Map<Seq<char>, Seq<u8>>,
        b: Map<Seq<char>, Seq<u8>>,
        aliases: Set<Seq<char>>,
    )
        requires
            self.resolved(a, aliases),
            map_extends(a, b),
        ensures
            self.resolved(b, aliases),
    {
        assert forall|i: int| 0 <= i < self.refs().len() implies (#[trigger] self.refs()[i]).resolved(
            b,
            aliases,
        ) by {
            self.refs()[i].lemma_resolved_extends(a, b, aliases);
        }
    }
}

/// Among one reference, the first unresolved one is what that reference
/// gives.
pub proof fn lemma_unresolved_single<R: LibForm>(
    refs: Seq<R>,
    types: Map<Seq<char>, Seq<u8>>,
    aliases: Set<Seq<char>>,
)
    requires
        refs.len() == 1,
    ensures
        unresolved_from(refs, types, aliases, 0) == refs[0].unresolved(types, aliases),
{
    assert(unresolved_from(refs, types, aliases, 1) is None);
}

/// What a reference by name resolves to: the named type has the identifier
/// that the reference carries.
pub open spec fn named_resolved(types: Map<Seq<char>, Seq<u8>>, name: Seq<char>, id: Seq<u8>) -> bool {
    types.dom().contains(name) && types[name] == id
}

/// The text of an inline type inside another: in parentheses where the type
/// is compound.
pub open spec fn inline_text<R>(ty: Ty<R>, text: Seq<char>) -> Seq<char> {
    if ty is Struct || ty is Union || ty is Array || ty is List || ty is SetOf || ty is MapOf {
        "("@ + text + ")"@
    } else {
        text
    }
}

/// The text of a reference to a type of another library.
pub open spec fn extern_text(name: Seq<char>, alias: Seq<char>) -> Seq<char> {
    alias + "."@ + name
}

fn inline_string<R>(ty: &Ty<R>, text: String) -> (s: String)
    ensures
        s@ == inline_text(*ty, text@),
{
    if ty.is_compound() {
        let mut out = String::from_str("(");
        out.append(text.as_str());
        out.append(")");
        out
    } else {
        text
    }
}

fn extern_string(name: &TypeName, alias: &LibAlias) -> (s: String)
    ensures
        s@ == extern_text(name@, alias@),
{
    let mut out = alias.to_string();
    out.append(".");
    out.append(name.as_str());
    out
}

impl LibForm for KeyTy {
    open spec fn resolved(&self, types: Map<Seq<char>, Seq<u8>>, aliases: Set<Seq<char>>) -> bool {
        true
    }

    proof fn lemma_resolved_extends(
        &self,
        a: Map<Seq<char>, Seq<u8>>,
        b: Map<Seq<char>, Seq<u8>>,
        aliases: Set<Seq<char>>,
    ) {
    }

    open spec fn unresolved(
        &self,
        types: Map<Seq<char>, Seq<u8>>,
        aliases: Set<Seq<char>>,
    ) -> Option<Unresolved> {
        None
    }

    proof fn lemma_unresolved(&self, types: Map<Seq<char>, Seq<u8>>, aliases: Set<Seq<char>>) {
    }

    fn check(&self, index: &TypeIndex, deps: &OrdMap<Dependency>) -> (r: Result<
        (),
        TranslateError,
    >) {
        Ok(())
    }

    open spec fn depth() -> nat {
        0
    }

    open spec fn inline_depth(&self) -> nat {
        0
    }

    proof fn lemma_inline_depth(&self) {
    }

    open spec fn invalid(&self) -> Option<TagFault> {
        self.fault()
    }

    fn validate(&self) -> (r: Result<(), TyError>) {
        self.check_wf()
    }
}

/// The deepest form of reference: an inline type over key types.
#[derive(Clone, Eq, PartialEq, Debug)]
pub enum InlineRef2 {
    Builtin(Ty<KeyTy>),
    Named(TypeName, SemId),
    Extern(TypeName, LibAlias, SemId),
}

impl TypeRef for InlineRef2 {
    open spec fn sem_id(&self) -> Seq<u8> {
        match self {
            InlineRef2::Named(_, id) => id@,
            InlineRef2::Extern(_, _, id) => id@,
            InlineRef2::Builtin(ty) => ty.spec_id(None),
        }
    }

    fn id(&self) -> (r: SemId) {
        match self {
            InlineRef2::Named(_, id) => *id,
            InlineRef2::Extern(_, _, id) => *id,
            InlineRef2::Builtin(ty) => ty.id(None),
        }
    }
}

impl RefText for InlineRef2 {
    open spec fn spec_text(&self) -> Seq<char> {
        match self {
            InlineRef2::Named(name, _) => name@,
            InlineRef2::Extern(name, alias, _) => extern_text(name@, alias@),
            InlineRef2::Builtin(ty) => inline_text(*ty, ty.spec_text()),
        }
    }

    fn to_string(&self) -> (s: String) {
        match self {
            InlineRef2::Named(name, _) => name.to_string(),
            InlineRef2::Extern(name, alias, _) => extern_string(name, alias),
            InlineRef2::Builtin(ty) => inline_string(ty, ty.to_string()),
        }
    }
}

impl LibForm for InlineRef2 {
    open spec fn resolved(&self, types: Map<Seq<char>, Seq<u8>>, aliases: Set<Seq<char>>) -> bool {
        match self {
            InlineRef2::Named(name, id) => named_resolved(types, name@, id@),
            InlineRef2::Extern(_, alias, _) => aliases.contains(alias@),
            InlineRef2::Builtin(ty) => ty.resolved(types, aliases),
        }
    }

    proof fn lemma_resolved_extends(
        &self,
        a: Map<Seq<char>, Seq<u8>>,
        b: Map<Seq<char>, Seq<u8>>,
        aliases: Set<Seq<char>>,
    ) {
        match self {
            InlineRef2::Named(name, _) => {
                assert(a.dom().contains(name@));
            },
            InlineRef2::Extern(_, _, _) => {},
            InlineRef2::Builtin(ty) => {
                ty.lemma_resolved_extends(a, b, aliases);
            },
        }
    }

    open spec fn unresolved(
        &self,
        types: Map<Seq<char>, Seq<u8>>,
        aliases: Set<Seq<char>>,
    ) -> Option<Unresolved> {
        match self {
            InlineRef2::Named(name, id) => named_unresolved(types, name@, id@),
            InlineRef2::Extern(_, alias, _) => extern_unresolved(aliases, alias@),
            InlineRef2::Builtin(ty) => ty.unresolved(types, aliases),
        }
    }

    proof fn lemma_unresolved(&self, types: Map<Seq<char>, Seq<u8>>, aliases: Set<Seq<char>>) {
        match self {
            InlineRef2::Builtin(ty) => {
                ty.lemma_unresolved(types, aliases);
            },
            _ => {},
        }
    }

    fn check(&self, index: &TypeIndex, deps: &OrdMap<Dependency>) -> (r: Result<
        (),
        TranslateError,
    >) {
        match self {
            InlineRef2::Named(name, id) => check_named(index, name, id),
            InlineRef2::Extern(_, alias, _) => check_extern(deps, alias),
            InlineRef2::Builtin(ty) => ty.check(index, deps),
        }
    }

    open spec fn depth() -> nat {
        1
    }

    open spec fn inline_depth(&self) -> nat {
        match self {
            InlineRef2::Builtin(ty) => 1 + ty.inline_depth(),
            _ => 0,
        }
    }

    proof fn lemma_inline_depth(&self) {
        match self {
            InlineRef2::Builtin(ty) => {
                lemma_refs_depth(ty.refs(), ty.refs().len() as int);
            },
            _ => {},
        }
    }

    open spec fn invalid(&self) -> Option<TagFault> {
        match self {
            InlineRef2::Builtin(ty) => ty.invalid(),
            _ => None,
        }
    }

    fn validate(&self) -> (r: Result<(), TyError>) {
        match self {
            InlineRef2::Builtin(ty) => ty.validate(),
            _ => Ok(()),
        }
    }
}

/// The third form of reference: an inline type over the deepest form.
#[derive(Clone, Eq, PartialEq, Debug)]
pub enum InlineRef1 {
    Builtin(Ty<InlineRef2>),
    Named(TypeName, SemId),
    Extern(TypeName, LibAlias, SemId),
}

impl TypeRef for InlineRef1 {
    open spec fn sem_id(&self) -> Seq<u8> {
        match self {
            InlineRef1::Named(_, id) => id@,
            InlineRef1::Extern(_, _, id) => id@,
            InlineRef1::Builtin(ty) => ty.spec_id(None),
        }
    }

    fn id(&self) -> (r: SemId) {
        match self {
            InlineRef1::Named(_, id) => *id,
            InlineRef1::Extern(_, _, id) => *id,
            InlineRef1::Builtin(ty) => ty.id(None),
        }
    }
}

impl RefText for InlineRef1 {
    open spec fn spec_text(&self) -> Seq<char> {
        match self {
            InlineRef1::Named(name, _) => name@,
            InlineRef1::Extern(name, alias, _) => extern_text(name@, alias@),
            InlineRef1::Builtin(ty) => inline_text(*ty, ty.spec_text()),
        }
    }

    fn to_string(&self) -> (s: String) {
        match self {
            InlineRef1::Named(name, _) => name.to_string(),
            InlineRef1::Extern(name, alias, _) => extern_string(name, alias),
            InlineRef1::Builtin(ty) => inline_string(ty, ty.to_string()),
        }
    }
}

impl LibForm for InlineRef1 {
    open spec fn resolved(&self, types: Map<Seq<char>, Seq<u8>>, aliases: Set<Seq<char>>) -> bool {
        match self {
            InlineRef1::Named(name, id) => named_resolved(types, name@, id@),
            InlineRef1::Extern(_, alias, _) => aliases.contains(alias@),
            InlineRef1::Builtin(ty) => ty.resolved(types, aliases),
        }
    }

    proof fn lemma_resolved_extends(
        &self,
        a: Map<Seq<char>, Seq<u8>>,
        b: Map<Seq<char>, Seq<u8>>,
        aliases: Set<Seq<char>>,
    ) {
        match self {
            InlineRef1::Named(name, _) => {
                assert(a.dom().contains(name@));
            },
            InlineRef1::Extern(_, _, _) => {},
            InlineRef1::Builtin(ty) => {
                ty.lemma_resolved_extends(a, b, aliases);
            },
        }
    }

    open spec fn unresolved(
        &self,
        types: Map<Seq<char>, Seq<u8>>,
        aliases: Set<Seq<char>>,
    ) -> Option<Unresolved> {
        match self {
            InlineRef1::Named(name, id) => named_unresolved(types, name@, id@),
            InlineRef1::Extern(_, alias, _) => extern_unresolved(aliases, alias@),
            InlineRef1::Builtin(ty) => ty.unresolved(types, aliases),
        }
    }

    proof fn lemma_unresolved(&self, types: Map<Seq<char>, Seq<u8>>, aliases: Set<Seq<char>>) {
        match self {
            InlineRef1::Builtin(ty) => {
                ty.lemma_unresolved(types, aliases);
            },
            _ => {},
        }
    }

    fn check(&self, index: &TypeIndex, deps: &OrdMap<Dependency>) -> (r: Result<
        (),
        TranslateError,
    >) {
        match self {
            InlineRef1::Named(name, id) => check_named(index, name, id),
            InlineRef1::Extern(_, alias, _) => check_extern(deps, alias),
            InlineRef1::Builtin(ty) => ty.check(index, deps),
        }
    }

    open spec fn depth() -> nat {
        2
    }

    open spec fn inline_depth(&self) -> nat {
        match self {
            InlineRef1::Builtin(ty) => 1 + ty.inline_depth(),
            _ => 0,
        }
    }

    proof fn lemma_inline_depth(&self) {
        match self {
            InlineRef1::Builtin(ty) => {
                lemma_refs_depth(ty.refs(), ty.refs().len() as int);
            },
            _ => {},
        }
    }

    open spec fn invalid(&self) -> Option<TagFault> {
        match self {
            InlineRef1::Builtin(ty) => ty.invalid(),
            _ => None,
        }
    }

    fn validate(&self) -> (r: Result<(), TyError>) {
        match self {
            InlineRef1::Builtin(ty) => ty.validate(),
            _ => Ok(()),
        }
    }
}

/// The second form of reference: an inline type over the third form.
#[derive(Clone, Eq, PartialEq, Debug)]
pub enum InlineRef {
    Builtin(Ty<InlineRef1>),
    Named(TypeName, SemId),
    Extern(TypeName, LibAlias, SemId),
}

impl TypeRef for InlineRef {
    open spec fn sem_id(&self) -> Seq<u8> {
        match self {
            InlineRef::Named(_, id) => id@,
            InlineRef::Extern(_, _, id) => id@,
            InlineRef::Builtin(ty) => ty.spec_id(None),
        }
    }

    fn id(&self) -> (r: SemId) {
        match self {
            InlineRef::Named(_, id) => *id,
            InlineRef::Extern(_, _, id) => *id,
            InlineRef::Builtin(ty) => ty.id(None),
        }
    }
}

impl RefText for InlineRef {
    open spec fn spec_text(&self) -> Seq<char> {
        match self {
            InlineRef::Named(name, _) => name@,
            InlineRef::Extern(name, alias, _) => extern_text(name@, alias@),
            InlineRef::Builtin(ty) => inline_text(*ty, ty.spec_text()),
        }
    }

    fn to_string(&self) -> (s: String) {
        match self {
            InlineRef::Named(name, _) => name.to_string(),
            InlineRef::Extern(name, alias, _) => extern_string(name, alias),
            InlineRef::Builtin(ty) => inline_string(ty, ty.to_string()),
        }
    }
}

impl LibForm for InlineRef {
    open spec fn resolved(&self, types: Map<Seq<char>, Seq<u8>>, aliases: Set<Seq<char>>) -> bool {
        match self {
            InlineRef::Named(name, id) => named_resolved(types, name@, id@),
            InlineRef::Extern(_, alias, _) => aliases.contains(alias@),
            InlineRef::Builtin(ty) => ty.resolved(types, aliases),
        }
    }

    proof fn lemma_resolved_extends(
        &self,
        a: Map<Seq<char>, Seq<u8>>,
        b: Map<Seq<char>, Seq<u8>>,
        aliases: Set<Seq<char>>,
    ) {
        match self {
            InlineRef::Named(name, _) => {
                assert(a.dom().contains(name@));
            },
            InlineRef::Extern(_, _, _) => {},
            InlineRef::Builtin(ty) => {
                ty.lemma_resolved_extends(a, b, aliases);
            },
        }
    }

    open spec fn unresolved(
        &self,
        types: Map<Seq<char>, Seq<u8>>,
        aliases: Set<Seq<char>>,
    ) -> Option<Unresolved> {
        match self {
            InlineRef::Named(name, id) => named_unresolved(types, name@, id@),
            InlineRef::Extern(_, alias, _) => extern_unresolved(aliases, alias@),
            InlineRef::Builtin(ty) => ty.unresolved(types, aliases),
        }
    }

    proof fn lemma_unresolved(&self, types: Map<Seq<char>, Seq<u8>>, aliases: Set<Seq<char>>) {
        match self {
            InlineRef::Builtin(ty) => {
                ty.lemma_unresolved(types, aliases);
            },
            _ => {},
        }
    }

    fn check(&self, index: &TypeIndex, deps: &OrdMap<Dependency>) -> (r: Result<
        (),
        TranslateError,
    >) {
        match self {
            InlineRef::Named(name, id) => check_named(index, name, id),
            InlineRef::Extern(_, alias, _) => check_extern(deps, alias),
            InlineRef::Builtin(ty) => ty.check(index, deps),
        }
    }

    open spec fn depth() -> nat {
        3
    }

    open spec fn inline_depth(&self) -> nat {
        match self {
            InlineRef::Builtin(ty) => 1 + ty.inline_depth(),
            _ => 0,
        }
    }

    proof fn lemma_inline_depth(&self) {
        match self {
            InlineRef::Builtin(ty) => {
                lemma_refs_depth(ty.refs(), ty.refs().len() as int);
            },
            _ => {},
        }
    }

    open spec fn invalid(&self) -> Option<TagFault> {
        match self {
            InlineRef::Builtin(ty) => ty.invalid(),
            _ => None,
        }
    }

    fn validate(&self) -> (r: Result<(), TyError>) {
        match self {
            InlineRef::Builtin(ty) => ty.validate(),
            _ => Ok(()),
        }
    }
}

/// The form of reference in the named types of a library: an inline type
/// over the second form, a type of the library by name, or a type of
/// another library by name and alias.
#[derive(Clone, Eq, PartialEq, Debug)]
pub enum LibRef {
    Inline(Ty<InlineRef>),
    Named(TypeName, SemId),
    Extern(TypeName, LibAlias, SemId),
}

impl TypeRef for LibRef {
    open spec fn sem_id(&self) -> Seq<u8> {
        match self {
            LibRef::Named(_, id) => id@,
            LibRef::Extern(_, _, id) => id@,
            LibRef::Inline(ty) => ty.spec_id(None),
        }
    }

    fn id(&self) -> (r: SemId) {
        match self {
            LibRef::Named(_, id) => *id,
            LibRef::Extern(_, _, id) => *id,
            LibRef::Inline(ty) => ty.id(None),
        }
    }
}

impl RefText for LibRef {
    open spec fn spec_text(&self) -> Seq<char> {
        match self {
            LibRef::Named(name, _) => name@,
            LibRef::Extern(name, alias, _) => extern_text(name@, alias@),
            LibRef::Inline(ty) => inline_text(*ty, ty.spec_text()),
        }
    }

    fn to_string(&self) -> (s: String) {
        match self {
            LibRef::Named(name, _) => name.to_string(),
            LibRef::Extern(name, alias, _) => extern_string(name, alias),
            LibRef::Inline(ty) => inline_string(ty, ty.to_string()),
        }
    }
}

impl LibForm for LibRef {
    open spec fn resolved(&self, types: Map<Seq<char>, Seq<u8>>, aliases: Set<Seq<char>>) -> bool {
        match self {
            LibRef::Named(name, id) => named_resolved(types, name@, id@),
            LibRef::Extern(_, alias, _) => aliases.contains(alias@),
            LibRef::Inline(ty) => ty.resolved(types, aliases),
        }
    }

    proof fn lemma_resolved_extends(
        &self,
        a: Map<Seq<char>, Seq<u8>>,
        b: Map<Seq<char>, Seq<u8>>,
        aliases: Set<Seq<char>>,
    ) {
        match self {
            LibRef::Named(name, _) => {
                assert(a.dom().contains(name@));
            },
            LibRef::Extern(_, _, _) => {},
            LibRef::Inline(ty) => {
                ty.lemma_resolved_extends(a, b, aliases);
            },
        }
    }

    open spec fn unresolved(
        &self,
        types: Map<Seq<char>, Seq<u8>>,
        aliases: Set<Seq<char>>,
    ) -> Option<Unresolved> {
        match self {
            LibRef::Named(name, id) => named_unresolved(types, name@, id@),
            LibRef::Extern(_, alias, _) => extern_unresolved(aliases, alias@),
            LibRef::Inline(ty) => ty.unresolved(types, aliases),
        }
    }

    proof fn lemma_unresolved(&self, types: Map<Seq<char>, Seq<u8>>, aliases: Set<Seq<char>>) {
        match self {
            LibRef::Inline(ty) => {
                ty.lemma_unresolved(types, aliases);
            },
            _ => {},
        }
    }

    fn check(&self, index: &TypeIndex, deps: &OrdMap<Dependency>) -> (r: Result<
        (),
        TranslateError,
    >) {
        match self {
            LibRef::Named(name, id) => check_named(index, name, id),
            LibRef::Extern(_, alias, _) => check_extern(deps, alias),
            LibRef::Inline(ty) => ty.check(index, deps),
        }
    }

    open spec fn depth() -> nat {
        4
    }

    open spec fn inline_depth(&self) -> nat {
        match self {
            LibRef::Inline(ty) => 1 + ty.inline_depth(),
            _ => 0,
        }
    }

    proof fn lemma_inline_depth(&self) {
        match self {
            LibRef::Inline(ty) => {
                lemma_refs_depth(ty.refs(), ty.refs().len() as int);
            },
            _ => {},
        }
    }

    open spec fn invalid(&self) -> Option<TagFault> {
        match self {
            LibRef::Inline(ty) => ty.invalid(),
            _ => None,
        }
    }

    fn validate(&self) -> (r: Result<(), TyError>) {
        match self {
            LibRef::Inline(ty) => ty.validate(),
            _ => Ok(()),
        }
    }
}

/// A library that a library depends on.
#[derive(Clone, Eq, PartialEq, Debug)]
pub struct Dependency {
    pub id: TypeLibId,
    pub name: LibName,
    pub ver: SemVer,
}

/// The aliases under which dependencies stand.
pub open spec fn aliases_of(deps: OrdMap<Dependency>) -> Set<Seq<char>> {
    Set::new(|alias: Seq<char>| deps.has(alias))
}

/// The most dependencies that a library can have.
pub const MAX_DEPENDENCIES: usize = 255;

/// The most types that a library can hold.
pub const MAX_TYPES: usize = 65535;

/// The identifier of each type under its name.
pub open spec fn type_ids(types: Seq<Entry<Ty<LibRef>>>) -> Map<Seq<char>, Seq<u8>> {
    Map::new(
        |name: Seq<char>| keys_of(types).contains(name),
        |name: Seq<char>|
            types[choose|i: int| 0 <= i < types.len() && types[i].key@ == name].value.spec_id(
                Some(name),
            ),
    )
}

/// The aliases among the entries.
pub open spec fn alias_set(deps: Seq<Entry<Dependency>>) -> Set<Seq<char>> {
    Set::new(|alias: Seq<char>| keys_of(deps).contains(alias))
}

/// What is wrong with the parts of a library.
pub enum LibFault {
    /// More dependencies or types than a library can hold.
    Oversize { len: nat, max_len: nat },
    /// No type at all.
    Undersize { len: nat, min_len: nat },
    /// A reference by name to a type that the library does not hold with
    /// the identifier which the reference carries.
    UnknownType(Seq<char>),
    /// A reference to another library under an alias that is not declared.
    UnknownDependency(Seq<char>),
    /// A type that does not meet its invariants.
    InvalidType(TagFault),
    /// A type without a name that nests deeper than inline types can.
    TooDeep,
    /// A name that stands for two types, or a type under two names.
    DuplicateName(Seq<char>),
    /// A root without a name.
    UnknownId(Seq<u8>),
}

impl TranslateError {
    /// The fault that the error reports.
    pub open spec fn fault(&self) -> LibFault {
        match self {
            TranslateError::Confinement(ConfinementError::Oversize { len, max_len }) => {
                LibFault::Oversize { len: *len as nat, max_len: *max_len as nat }
            },
            TranslateError::Confinement(ConfinementError::Undersize { len, min_len }) => {
                LibFault::Undersize { len: *len as nat, min_len: *min_len as nat }
            },
            TranslateError::UnknownType(name) => LibFault::UnknownType(name@),
            TranslateError::UnknownDependency(alias) => LibFault::UnknownDependency(alias@),
            TranslateError::InvalidType(e) => LibFault::InvalidType(e.fault()),
            TranslateError::TooDeep => LibFault::TooDeep,
            TranslateError::DuplicateName(name) => LibFault::DuplicateName(name@),
            TranslateError::UnknownId(id) => LibFault::UnknownId(id@),
        }
    }
}

/// The first reference that does not resolve among the types from position
/// `from` on.
pub open spec fn types_unresolved(
    types: Seq<Entry<Ty<LibRef>>>,
    ids: Map<Seq<char>, Seq<u8>>,
    aliases: Set<Seq<char>>,
    from: int,
) -> Option<Unresolved>
    decreases types.len() - from,
{
    if from < 0 || from >= types.len() {
        None
    } else {
        match types[from].value.unresolved(ids, aliases) {
            Some(u) => Some(u),
            None => types_unresolved(types, ids, aliases, from + 1),
        }
    }
}

/// Nothing is unresolved among the types from `from` on where all of them
/// resolve, and only there.
pub proof fn lemma_types_unresolved(
    types: Seq<Entry<Ty<LibRef>>>,
    ids: Map<Seq<char>, Seq<u8>>,
    aliases: Set<Seq<char>>,
    from: int,
)
    requires
        0 <= from,
    ensures
        types_unresolved(types, ids, aliases, from) is None <==> forall|i: int|
            from <= i < types.len() ==> (#[trigger] types[i]).value.resolved(ids, aliases),
    decreases types.len() - from,
{
    if from < types.len() {
        types[from].value.lemma_unresolved(ids, aliases);
        lemma_types_unresolved(types, ids, aliases, from + 1);
        if types_unresolved(types, ids, aliases, from) is None {
            assert forall|i: int| from <= i < types.len() implies (#[trigger] types[i]).value.resolved(
                ids,
                aliases,
            ) by {
                if i > from {
                }
            }
        }
    }
}

/// The first fault of a type among the types from position `from` on.
pub open spec fn types_invalid(types: Seq<Entry<Ty<LibRef>>>, from: int) -> Option<TagFault>
    decreases types.len() - from,
{
    if from < 0 || from >= types.len() {
        None
    } else {
        match types[from].value.invalid() {
            Some(fault) => Some(fault),
            None => types_invalid(types, from + 1),
        }
    }
}

/// No type from `from` on has a fault where the model finds none, and only
/// there.
pub proof fn lemma_types_invalid(types: Seq<Entry<Ty<LibRef>>>, from: int)
    requires
        0 <= from,
    ensures
        types_invalid(types, from) is None <==> forall|i: int|
            from <= i < types.len() ==> (#[trigger] types[i]).value.invalid() is None,
    decreases types.len() - from,
{
    if from < types.len() {
        lemma_types_invalid(types, from + 1);
        if types_invalid(types, from) is None {
            assert forall|i: int| from <= i < types.len() implies (#[trigger] types[i]).value.invalid()
                is None by {
                if i > from {
                }
            }
        }
    }
}

/// The parts meet the invariants of a library: no more than 255
/// dependencies, from 1 to 65535 types, and every reference in the types
/// resolves.
pub open spec fn parts_wf(deps: Seq<Entry<Dependency>>, types: Seq<Entry<Ty<LibRef>>>) -> bool {
    &&& deps.len() <= MAX_DEPENDENCIES
    &&& 1 <= types.len() <= MAX_TYPES
    &&& forall|i: int| 0 <= i < types.len() ==> (#[trigger] types[i]).value.invalid() is None
    &&& forall|i: int|
        0 <= i < types.len() ==> (#[trigger] types[i]).value.resolved(
            type_ids(types),
            alias_set(deps),
        )
}

/// The first fault of the parts of a library, if they have one: too many
/// dependencies, no type, too many types, or the first reference that does
/// not resolve.
pub open spec fn parts_fault(deps: Seq<Entry<Dependency>>, types: Seq<Entry<Ty<LibRef>>>) -> Option<
    LibFault,
> {
    if deps.len() > MAX_DEPENDENCIES {
        Some(LibFault::Oversize { len: deps.len(), max_len: MAX_DEPENDENCIES as nat })
    } else if types.len() == 0 {
        Some(LibFault::Undersize { len: 0, min_len: 1 })
    } else if types.len() > MAX_TYPES {
        Some(LibFault::Oversize { len: types.len(), max_len: MAX_TYPES as nat })
    } else {
        match types_invalid(types, 0) {
            Some(fault) => Some(LibFault::InvalidType(fault)),
            None => match types_unresolved(types, type_ids(types), alias_set(deps), 0) {
                Some(Unresolved::Type(name)) => Some(LibFault::UnknownType(name)),
                Some(Unresolved::Dependency(alias)) => Some(LibFault::UnknownDependency(alias)),
                None => None,
            },
        }
    }
}

/// Computes the identifier of each type under its name.
fn index_of_types(types: &OrdMap<Ty<LibRef>>) -> (index: TypeIndex)
    ensures
        id_map(index) == type_ids(types@),
{
    proof {
        use_type_invariant(types);
    }
    let mut index: TypeIndex = OrdMap::new();
    let mut i: usize = 0;
    while i < types.len()
        invariant
            i <= types@.len(),
            types.wf(),
            index.wf(),
            forall|n: Seq<char>|
                index.has(n) <==> exists|j: int| 0 <= j < i && (#[trigger] types@[j]).key@ == n,
            forall|j: int|
                0 <= j < i ==> index.spec_map()[(#[trigger] types@[j]).key@]@
                    == types@[j].value.spec_id(Some(types@[j].key@)),
        decreases types@.len() - i,
    {
        let entry = types.entry(i);
        let id = entry.value.id(Some(&entry.key));
        let ghost before = index;
        index.insert(entry.key.clone(), id);
        proof {
            assert forall|j: int| 0 <= j < i + 1 implies index.spec_map()[(
            #[trigger] types@[j]).key@]@ == types@[j].value.spec_id(Some(types@[j].key@)) by {
                if j < i {
                    if types@[j].key@ == types@[i as int].key@ {
                        types.lemma_keys_distinct(j, i as int);
                    }
                    assert(before.has(types@[j].key@));
                }
            }
        }
        i += 1;
    }
    proof {
        assert forall|n: Seq<char>| id_map(index).dom().contains(n) <==> type_ids(
            types@,
        ).dom().contains(n) by {
            if keys_of(types@).contains(n) {
                let j = choose|j: int| 0 <= j < keys_of(types@).len() && keys_of(types@)[j] == n;
                assert(types@[j].key@ == n);
            }
            if index.has(n) {
                let j = choose|j: int| 0 <= j < types@.len() && (#[trigger] types@[j]).key@ == n;
                assert(keys_of(types@)[j] == n);
            }
        }
        assert forall|n: Seq<char>| id_map(index).dom().contains(n) implies #[trigger] id_map(
            index,
        )[n] == type_ids(types@)[n] by {
            assert(index.has(n));
            assert(type_ids(types@).dom().contains(n));
            let j = choose|j: int| 0 <= j < types@.len() && (#[trigger] types@[j]).key@ == n;
            assert(0 <= j < types@.len() && types@[j].key@ == n);
            let c = choose|c: int| 0 <= c < types@.len() && types@[c].key@ == n;
            types.lemma_keys_distinct(j, c);
            assert(index.spec_map()[types@[j].key@]@ == types@[j].value.spec_id(Some(n)));
            assert(id_map(index)[n] == index.spec_map()[n]@);
            assert(type_ids(types@)[n] == types@[c].value.spec_id(Some(n)));
        }
        assert(id_map(index) =~= type_ids(types@));
    }
    index
}

/// A library: a name, the libraries that it depends on under their aliases,
/// and its types under their names. It is made once and does not change.
#[derive(Eq, PartialEq, Debug)]
pub struct TypeLib {
    name: LibName,
    dependencies: OrdMap<Dependency>,
    types: OrdMap<Ty<LibRef>>,
}

impl TypeLib {
    /// The name of the library.
    pub closed spec fn spec_name(&self) -> Seq<char> {
        self.name@
    }

    /// The dependencies, in the order of their aliases.
    pub closed spec fn spec_dependencies(&self) -> Seq<Entry<Dependency>> {
        self.dependencies@
    }

    /// The types, in the order of their names.
    pub closed spec fn spec_types(&self) -> Seq<Entry<Ty<LibRef>>> {
        self.types@
    }

    /// What holds of every library: it has a type and no more than 65535, no
    /// more than 255 dependencies, and every reference in its types
    /// resolves: one by name to a type of the library that has the
    /// identifier which the reference carries, one to another library to an
    /// alias of a dependency.
    #[verifier::type_invariant]
    pub open spec fn wf(&self) -> bool {
        &&& valid_ident(self.spec_name())
        &&& strictly_sorted(keys_of(self.spec_dependencies()))
        &&& strictly_sorted(keys_of(self.spec_types()))
        &&& self.spec_dependencies().len() <= MAX_DEPENDENCIES
        &&& 1 <= self.spec_types().len() <= MAX_TYPES
        &&& forall|i: int|
            0 <= i < self.spec_types().len() ==> (
            #[trigger] self.spec_types()[i]).value.invalid() is None
        &&& forall|i: int|
            0 <= i < self.spec_types().len() ==> (#[trigger] self.spec_types()[i]).value.resolved(
                type_ids(self.spec_types()),
                alias_set(self.spec_dependencies()),
            )
    }

    /// Makes a library of parts that meet its invariants.
    fn assemble(name: LibName, dependencies: OrdMap<Dependency>, types: OrdMap<Ty<LibRef>>) -> (r:
        TypeLib)
        requires
            parts_wf(dependencies@, types@),
        ensures
            r.spec_name() == name@,
            r.spec_dependencies() == dependencies@,
            r.spec_types() == types@,
            r.wf(),
    {
        proof {
            use_type_invariant(&dependencies);
            use_type_invariant(&types);
        }
        // reading the name tells that it is valid
        let _ = name.as_str();
        TypeLib { name, dependencies, types }
    }

    /// Makes a library of a name, dependencies and types, if they meet the
    /// invariants of a library. The bounds are checked first: on the
    /// dependencies, then on the types. Then the invariants of the types are
    /// checked, type by type in the order of the names and inline types at
    /// any depth, and the first fault is the error. Then the references in
    /// the types are checked in the same order, and the first that does not
    /// resolve is the error.
    pub fn new(name: LibName, dependencies: OrdMap<Dependency>, types: OrdMap<Ty<LibRef>>) -> (r:
        Result<TypeLib, TranslateError>)
        ensures
            r is Ok <==> parts_wf(dependencies@, types@),
            match r {
                Ok(lib) => lib.wf() && lib.spec_name() == name@ && lib.spec_dependencies()
                    == dependencies@ && lib.spec_types() == types@,
                Err(e) => Some(e.fault()) == parts_fault(dependencies@, types@),
            },
    {
        proof {
            use_type_invariant(&types);
            use_type_invariant(&dependencies);
        }
        if dependencies.len() > MAX_DEPENDENCIES {
            return Err(
                TranslateError::Confinement(
                    ConfinementError::Oversize {
                        len: dependencies.len(),
                        max_len: MAX_DEPENDENCIES,
                    },
                ),
            );
        }
        if types.len() == 0 {
            return Err(
                TranslateError::Confinement(ConfinementError::Undersize { len: 0, min_len: 1 }),
            );
        }
        if types.len() > MAX_TYPES {
            return Err(
                TranslateError::Confinement(
                    ConfinementError::Oversize { len: types.len(), max_len: MAX_TYPES },
                ),
            );
        }
        let mut k: usize = 0;
        while k < types.len()
            invariant
                k <= types@.len(),
                dependencies@.len() <= MAX_DEPENDENCIES,
                1 <= types@.len() <= MAX_TYPES,
                types_invalid(types@, 0) == types_invalid(types@, k as int),
            decreases types@.len() - k,
        {
            match types.entry(k).value.validate() {
                Ok(()) => {},
                Err(e) => {
                    proof {
                        lemma_types_invalid(types@, 0);
                    }
                    return Err(TranslateError::InvalidType(e));
                },
            }
            k += 1;
        }
        proof {
            lemma_types_invalid(types@, 0);
        }
        let index = index_of_types(&types);
        let ghost ids = type_ids(types@);
        let ghost aliases = alias_set(dependencies@);
        assert(aliases =~= aliases_of(dependencies));
        let mut i: usize = 0;
        while i < types.len()
            invariant
                i <= types@.len(),
                dependencies@.len() <= MAX_DEPENDENCIES,
                1 <= types@.len() <= MAX_TYPES,
                ids == id_map(index),
                ids == type_ids(types@),
                types_invalid(types@, 0) is None,
                forall|j: int| 0 <= j < types@.len() ==> (#[trigger] types@[j]).value.invalid() is None,
                aliases == aliases_of(dependencies),
                aliases == alias_set(dependencies@),
                types_unresolved(types@, ids, aliases, 0) == types_unresolved(
                    types@,
                    ids,
                    aliases,
                    i as int,
                ),
            decreases types@.len() - i,
        {
            match types.entry(i).value.check(&index, &dependencies) {
                Ok(()) => {},
                Err(e) => {
                    proof {
                        lemma_types_unresolved(types@, ids, aliases, 0);
                    }
                    return Err(e);
                },
            }
            i += 1;
        }
        proof {
            lemma_types_unresolved(types@, ids, aliases, 0);
        }
        Ok(TypeLib::assemble(name, dependencies, types))
    }

    /// The name of the library.
    pub fn name(&self) -> (r: &LibName)
        ensures
            r@ == self.spec_name(),
    {
        &self.name
    }

    /// The dependencies under their aliases.
    pub fn dependencies(&self) -> (r: &OrdMap<Dependency>)
        ensures
            r@ == self.spec_dependencies(),
            r@.len() <= MAX_DEPENDENCIES,
    {
        proof {
            use_type_invariant(self);
        }
        &self.dependencies
    }

    /// The types under their names.
    pub fn types(&self) -> (r: &OrdMap<Ty<LibRef>>)
        ensures
            r@ == self.spec_types(),
            1 <= r@.len() <= MAX_TYPES,
            self.wf(),
    {
        proof {
            use_type_invariant(self);
        }
        &self.types
    }
}

/// At each of the four forms, a reference that holds a type has the
/// identifier of that type without a name, and a reference by name has the
/// identifier that it carries.
pub proof fn law_reference_id(a: LibRef, b: InlineRef, c: InlineRef1, d: InlineRef2)
    ensures
        a matches LibRef::Inline(ty) ==> a.sem_id() == ty.spec_id(None),
        b matches InlineRef::Builtin(ty) ==> b.sem_id() == ty.spec_id(None),
        c matches InlineRef1::Builtin(ty) ==> c.sem_id() == ty.spec_id(None),
        d matches InlineRef2::Builtin(ty) ==> d.sem_id() == ty.spec_id(None),
        a matches LibRef::Named(_, id) ==> a.sem_id() == id@,
        b matches InlineRef::Named(_, id) ==> b.sem_id() == id@,
        c matches InlineRef1::Named(_, id) ==> c.sem_id() == id@,
        d matches InlineRef2::Named(_, id) ==> d.sem_id() == id@,
{
}

/// In a library no chain of inline types is longer than the four forms of
/// reference allow: below a type with a name, inline types nest through
/// `LibRef`, `InlineRef`, `InlineRef1` and `InlineRef2`, and end in a key
/// type or in a reference by name.
pub proof fn law_depth_bound(lib: TypeLib, i: int)
    requires
        0 <= i < lib.spec_types().len(),
    ensures
        lib.spec_types()[i].value.inline_depth() <= 4,
{
    let ty = lib.spec_types()[i].value;
    lemma_refs_depth(ty.refs(), ty.refs().len() as int);
}

/// In a library every type meets its invariants, and so does every inline
/// type in it at any depth: the bounds on the number of variants and fields,
/// distinct ordinals and names, no array without items, sizing bounds in
/// order.
pub proof fn law_library_types_wf(lib: TypeLib, i: int)
    requires
        lib.wf(),
        0 <= i < lib.spec_types().len(),
    ensures
        lib.spec_types()[i].value.wf(),
        lib.spec_types()[i].value.invalid() is None,
        forall|j: int|
            0 <= j < lib.spec_types()[i].value.refs().len() ==> (
            #[trigger] lib.spec_types()[i].value.refs()[j]).invalid() is None,
{
    lib.spec_types()[i].value.lemma_invalid();
}

/// In a library every reference resolves: one by name to a type of the
/// library, which has the identifier that the reference carries, and one to
/// another library to the alias of a dependency.
pub proof fn law_library_closed(lib: TypeLib, i: int, j: int)
    requires
        lib.wf(),
        0 <= i < lib.spec_types().len(),
        0 <= j < lib.spec_types()[i].value.refs().len(),
    ensures
        match lib.spec_types()[i].value.refs()[j] {
            LibRef::Named(name, id) => keys_of(lib.spec_types()).contains(name@) && type_ids(
                lib.spec_types(),
            )[name@] == id@,
            LibRef::Extern(_, alias, _) => keys_of(lib.spec_dependencies()).contains(alias@),
            LibRef::Inline(ty) => ty.resolved(
                type_ids(lib.spec_types()),
                alias_set(lib.spec_dependencies()),
            ),
        },
{
    let entry = lib.spec_types()[i];
    assert(entry.value.resolved(type_ids(lib.spec_types()), alias_set(lib.spec_dependencies())));
    assert(entry.value.refs()[j].resolved(
        type_ids(lib.spec_types()),
        alias_set(lib.spec_dependencies()),
    ));
}

} // verus!
