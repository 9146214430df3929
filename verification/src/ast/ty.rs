//! The variants of a type, generic in the form of reference that stands for
//! the nested types.

use vstd::prelude::*;
use crate::schema::PrimitiveType;
use crate::util::{valid_ident, ConfinementError, FieldName, Sizing};

verus! {

/// What tells one variant or field from the others: its ordinal and its
/// name, if it has one.
pub struct Tag {
    pub ord: u8,
    pub name: Option<Seq<char>>,
}

/// The view of a name that may be absent.
pub open spec fn opt_name_view(name: Option<FieldName>) -> Option<Seq<char>> {
    match name {
        Some(n) => Some(n@),
        None => None,
    }
}

/// An item that carries an ordinal and may carry a name.
pub trait Tagged: Sized {
    spec fn tag(&self) -> Tag;

    fn ord(&self) -> (o: u8)
        ensures
            o == self.tag().ord,
    ;

    fn name(&self) -> (n: Option<&FieldName>)
        ensures
            match n {
                Some(n) => self.tag().name == Some(n@) && valid_ident(n@),
                None => self.tag().name is None,
            },
    ;
}

/// A variant of an enumeration.
#[derive(Eq, PartialEq, Hash, Debug)]
pub struct Variant {
    pub name: Option<FieldName>,
    pub ord: u8,
}

/// A field of a structure or an alternative of a union: a tag and the
/// reference to its type.
#[derive(Clone, Eq, PartialEq, Hash, Debug)]
pub struct Field<R> {
    pub name: Option<FieldName>,
    pub ord: u8,
    pub ty: R,
}

/// Copies a name that may be absent.
pub fn clone_name(name: &Option<FieldName>) -> (r: Option<FieldName>)
    ensures
        r == *name,
{
    match name {
        Some(n) => Some(n.clone()),
        None => None,
    }
}

impl Clone for Variant {
    fn clone(&self) -> (r: Self)
        ensures
            r == *self,
    {
        Variant { name: clone_name(&self.name), ord: self.ord }
    }
}

/// Copies the variants of an enumeration.
pub fn clone_variants(variants: &Vec<Variant>) -> (r: Vec<Variant>)
    ensures
        r@ == variants@,
{
    let mut out: Vec<Variant> = Vec::new();
    let mut i: usize = 0;
    while i < variants.len()
        invariant
            i <= variants.len(),
            out@ == variants@.subrange(0, i as int),
        decreases variants.len() - i,
    {
        out.push(variants[i].clone());
        assert(variants@.subrange(0, i + 1) == variants@.subrange(0, i as int).push(
            variants@[i as int],
        ));
        i += 1;
    }
    assert(variants@.subrange(0, variants@.len() as int) == variants@);
    out
}

impl Variant {
    /// A variant with a name.
    pub fn named(name: FieldName, ord: u8) -> (r: Variant)
        ensures
            r.name == Some(name),
            r.ord == ord,
    {
        Variant { name: Some(name), ord }
    }

    /// A variant without a name.
    pub fn unnamed(ord: u8) -> (r: Variant)
        ensures
            r.name is None,
            r.ord == ord,
    {
        Variant { name: None, ord }
    }
}

impl<R> Field<R> {
    /// A field or an alternative with a name.
    pub fn named(name: FieldName, ord: u8, ty: R) -> (r: Field<R>)
        ensures
            r.name == Some(name),
            r.ord == ord,
            r.ty == ty,
    {
        Field { name: Some(name), ord, ty }
    }

    /// A field or an alternative without a name.
    pub fn unnamed(ord: u8, ty: R) -> (r: Field<R>)
        ensures
            r.name is None,
            r.ord == ord,
            r.ty == ty,
    {
        Field { name: None, ord, ty }
    }
}

impl Tagged for Variant {
    open spec fn tag(&self) -> Tag {
        Tag { ord: self.ord, name: opt_name_view(self.name) }
    }

    fn ord(&self) -> (o: u8) {
        self.ord
    }

    fn name(&self) -> (n: Option<&FieldName>) {
        match &self.name {
            Some(n) => {
                // reading the name tells that it is valid
                let _ = n.as_str();
                Some(n)
            },
            None => None,
        }
    }
}

impl<R> Tagged for Field<R> {
    open spec fn tag(&self) -> Tag {
        Tag { ord: self.ord, name: opt_name_view(self.name) }
    }

    fn ord(&self) -> (o: u8) {
        self.ord
    }

    fn name(&self) -> (n: Option<&FieldName>) {
        match &self.name {
            Some(n) => {
                // reading the name tells that it is valid
                let _ = n.as_str();
                Some(n)
            },
            None => None,
        }
    }
}

/// The tags of a sequence of items, in their order.
pub open spec fn tags_of<T: Tagged>(items: Seq<T>) -> Seq<Tag> {
    items.map_values(|t: T| t.tag())
}

/// The position of the first tag at or after `from` with the ordinal `ord`.
pub open spec fn position_of_ord(tags: Seq<Tag>, ord: u8, from: int) -> Option<int>
    decreases tags.len() - from,
{
    if from < 0 || from >= tags.len() {
        None
    } else if tags[from].ord == ord {
        Some(from)
    } else {
        position_of_ord(tags, ord, from + 1)
    }
}

/// The position of the first tag at or after `from` with the name `name`.
pub open spec fn position_of_name(tags: Seq<Tag>, name: Seq<char>, from: int) -> Option<int>
    decreases tags.len() - from,
{
    if from < 0 || from >= tags.len() {
        None
    } else if tags[from].name == Some(name) {
        Some(from)
    } else {
        position_of_name(tags, name, from + 1)
    }
}

/// What `position_of_ord` finds: the first position with that ordinal.
pub proof fn lemma_position_of_ord(tags: Seq<Tag>, ord: u8, from: int)
    requires
        0 <= from,
    ensures
        match position_of_ord(tags, ord, from) {
            Some(i) => from <= i < tags.len() && tags[i].ord == ord && forall|j: int|
                from <= j < i ==> tags[j].ord != ord,
            None => forall|j: int| from <= j < tags.len() ==> tags[j].ord != ord,
        },
    decreases tags.len() - from,
{
    if from < tags.len() && tags[from].ord != ord {
        lemma_position_of_ord(tags, ord, from + 1);
    }
}

/// What `position_of_name` finds: the first position with that name.
pub proof fn lemma_position_of_name(tags: Seq<Tag>, name: Seq<char>, from: int)
    requires
        0 <= from,
    ensures
        match position_of_name(tags, name, from) {
            Some(i) => from <= i < tags.len() && tags[i].name == Some(name) && forall|j: int|
                from <= j < i ==> tags[j].name != Some(name),
            None => forall|j: int| from <= j < tags.len() ==> tags[j].name != Some(name),
        },
    decreases tags.len() - from,
{
    if from < tags.len() && tags[from].name != Some(name) {
        lemma_position_of_name(tags, name, from + 1);
    }
}

/// Finds the first item with the ordinal `ord`.
pub fn find_ord<T: Tagged>(items: &Vec<T>, ord: u8) -> (r: Option<usize>)
    ensures
        match r {
            Some(i) => position_of_ord(tags_of(items@), ord, 0) == Some(i as int) && i
                < items.len(),
            None => position_of_ord(tags_of(items@), ord, 0) is None,
        },
{
    let ghost tags = tags_of(items@);
    let mut i: usize = 0;
    while i < items.len()
        invariant
            i <= items.len(),
            tags == tags_of(items@),
            position_of_ord(tags, ord, 0) == position_of_ord(tags, ord, i as int),
        decreases items.len() - i,
    {
        if items[i].ord() == ord {
            proof {
                lemma_position_of_ord(tags, ord, i as int);
            }
            return Some(i);
        }
        i += 1;
    }
    None
}

/// Finds the first item with the name `name`.
pub fn find_name<T: Tagged>(items: &Vec<T>, name: &FieldName) -> (r: Option<usize>)
    ensures
        match r {
            Some(i) => position_of_name(tags_of(items@), name@, 0) == Some(i as int) && i
                < items.len(),
            None => position_of_name(tags_of(items@), name@, 0) is None,
        },
{
    let ghost tags = tags_of(items@);
    let mut i: usize = 0;
    while i < items.len()
        invariant
            i <= items.len(),
            tags == tags_of(items@),
            position_of_name(tags, name@, 0) == position_of_name(tags, name@, i as int),
        decreases items.len() - i,
    {
        let found = match items[i].name() {
            Some(n) => n.same(name),
            None => false,
        };
        if found {
            proof {
                lemma_position_of_name(tags, name@, i as int);
            }
            return Some(i);
        }
        i += 1;
    }
    None
}

/// No ordinal occurs twice; no name occurs twice.
pub open spec fn tags_distinct(tags: Seq<Tag>) -> bool {
    &&& forall|i: int, j: int| 0 <= i < j < tags.len() ==> tags[i].ord != tags[j].ord
    &&& forall|i: int, j: int|
        0 <= i < j < tags.len() && tags[i].name is Some ==> tags[i].name != tags[j].name
}

/// Each ordinal is greater than the one before it.
pub open spec fn ords_increasing(tags: Seq<Tag>) -> bool {
    forall|i: int, j: int| 0 <= i < j < tags.len() ==> tags[i].ord < tags[j].ord
}

/// The restricted types that may be keys of a map, and that stand where the
/// nesting of inline types ends.
#[derive(Clone, Copy, Eq, PartialEq, Hash, Debug)]
pub enum KeyTy {
    Primitive(PrimitiveType),
    /// An array of bytes of the given length.
    Array(u16),
    /// A string of unicode characters within the given bounds.
    UnicodeStr(Sizing),
    /// A string of ASCII characters within the given bounds.
    AsciiStr(Sizing),
    /// A string of bytes within the given bounds.
    Bytes(Sizing),
}

impl KeyTy {
    /// The invariants of the type.
    pub open spec fn wf(&self) -> bool {
        match self {
            KeyTy::Primitive(_) => true,
            KeyTy::Array(len) => *len >= 1,
            KeyTy::UnicodeStr(sizing) => sizing.wf(),
            KeyTy::AsciiStr(sizing) => sizing.wf(),
            KeyTy::Bytes(sizing) => sizing.wf(),
        }
    }
}

/// A type, with references of the form `R` to the types nested in it.
#[derive(Clone, Eq, PartialEq, Hash, Debug)]
pub enum Ty<R> {
    Primitive(PrimitiveType),
    /// From 1 to 256 variants, told apart by their ordinals.
    Enum(Vec<Variant>),
    /// From 1 to 256 alternatives, told apart by their ordinals.
    Union(Vec<Field<R>>),
    /// From 1 to 255 fields, in the order of their ordinals.
    Struct(Vec<Field<R>>),
    /// A fixed number of items, one at least.
    Array(R, u16),
    List(R, Sizing),
    SetOf(R, Sizing),
    MapOf(KeyTy, R, Sizing),
    /// A string of unicode characters.
    Unicode(Sizing),
}

/// The most variants that an enumeration or a union can have.
pub const MAX_VARIANTS: usize = 256;

/// The most fields that a structure can have.
pub const MAX_FIELDS: usize = 255;

impl<R> Ty<R> {
    /// The references to the nested types, in the order in which the type
    /// holds them.
    pub open spec fn refs(&self) -> Seq<R> {
        match self {
            Ty::Union(fields) => fields@.map_values(|f: Field<R>| f.ty),
            Ty::Struct(fields) => fields@.map_values(|f: Field<R>| f.ty),
            Ty::Array(r, _) => seq![*r],
            Ty::List(r, _) => seq![*r],
            Ty::SetOf(r, _) => seq![*r],
            Ty::MapOf(_, r, _) => seq![*r],
            _ => Seq::empty(),
        }
    }

    /// The tags of the variants, alternatives or fields; none for the other
    /// types.
    pub open spec fn tags(&self) -> Seq<Tag> {
        match self {
            Ty::Enum(variants) => tags_of(variants@),
            Ty::Union(fields) => tags_of(fields@),
            Ty::Struct(fields) => tags_of(fields@),
            _ => Seq::empty(),
        }
    }

    /// The invariants of each variant: the bounds on the number of
    /// variants and fields, distinct ordinals and names, ordinals of fields
    /// in their order, no array without items, sizing bounds in order.
    pub open spec fn wf(&self) -> bool {
        match self {
            Ty::Primitive(_) => true,
            Ty::Enum(variants) => 1 <= variants@.len() <= MAX_VARIANTS && tags_distinct(
                self.tags(),
            ),
            Ty::Union(fields) => 1 <= fields@.len() <= MAX_VARIANTS && tags_distinct(
                self.tags(),
            ),
            Ty::Struct(fields) => 1 <= fields@.len() <= MAX_FIELDS && tags_distinct(self.tags())
                && ords_increasing(self.tags()),
            Ty::Array(_, len) => *len >= 1,
            Ty::List(_, sizing) => sizing.wf(),
            Ty::SetOf(_, sizing) => sizing.wf(),
            Ty::MapOf(key, _, sizing) => key.wf() && sizing.wf(),
            Ty::Unicode(sizing) => sizing.wf(),
        }
    }

    /// Whether the type holds references to nested types.
    pub fn is_compound(&self) -> (r: bool)
        ensures
            r == (self is Struct || self is Union || self is Array || self is List
                || self is SetOf || self is MapOf),
    {
        match self {
            Ty::Struct(_) | Ty::Union(_) | Ty::Array(_, _) | Ty::List(_, _) | Ty::SetOf(_, _)
            | Ty::MapOf(_, _, _) => true,
            _ => false,
        }
    }
}

/// What is wrong with the items of an enumeration, a union or a structure.
pub enum TagFault {
    /// There is no item.
    Undersize,
    /// There are more items than the type can hold.
    Oversize,
    /// An ordinal occurs a second time.
    RepeatedOrd(u8),
    /// An ordinal of a structure is smaller than the one before it.
    UnorderedOrd(u8),
    /// A name occurs a second time.
    RepeatedName(Seq<char>),
    /// The lower bound of a sizing exceeds the upper one.
    InvalidSizing(Sizing),
}

/// Why a type could not be made of the given items.
#[derive(Clone, Eq, PartialEq, Hash, Debug)]
pub enum TyError {
    /// There is no item, or there are more than the type can hold.
    Confinement(ConfinementError),
    /// An ordinal occurs a second time.
    RepeatedOrd(u8),
    /// An ordinal of a structure is smaller than the one before it.
    UnorderedOrd(u8),
    /// A name occurs a second time.
    RepeatedName(FieldName),
    /// The lower bound of a sizing exceeds the upper one.
    InvalidSizing(Sizing),
}

impl TyError {
    /// The fault that the error reports.
    pub open spec fn fault(&self) -> TagFault {
        match self {
            TyError::Confinement(ConfinementError::Undersize { .. }) => TagFault::Undersize,
            TyError::Confinement(ConfinementError::Oversize { .. }) => TagFault::Oversize,
            TyError::RepeatedOrd(ord) => TagFault::RepeatedOrd(*ord),
            TyError::UnorderedOrd(ord) => TagFault::UnorderedOrd(*ord),
            TyError::RepeatedName(name) => TagFault::RepeatedName(name@),
            TyError::InvalidSizing(sizing) => TagFault::InvalidSizing(*sizing),
        }
    }
}

/// Whether the outcome of a check is the one that the model gives: success
/// where there is no fault, else the error that reports the fault.
pub open spec fn fault_outcome(r: Result<(), TyError>, model: Option<TagFault>) -> bool {
    match r {
        Ok(()) => model is None,
        Err(e) => model == Some(e.fault()),
    }
}

/// What is wrong with a sizing, if anything is.
pub open spec fn sizing_fault(sizing: Sizing) -> Option<TagFault> {
    if sizing.min > sizing.max {
        Some(TagFault::InvalidSizing(sizing))
    } else {
        None
    }
}

/// What is wrong with the length of an array, if anything is.
pub open spec fn length_fault(len: u16) -> Option<TagFault> {
    if len == 0 {
        Some(TagFault::Undersize)
    } else {
        None
    }
}

/// Checks a sizing.
pub fn check_sizing(sizing: &Sizing) -> (r: Result<(), TyError>)
    ensures
        fault_outcome(r, sizing_fault(*sizing)),
{
    if sizing.min > sizing.max {
        Err(TyError::InvalidSizing(*sizing))
    } else {
        Ok(())
    }
}

/// Checks the length of an array.
pub fn check_length(len: u16) -> (r: Result<(), TyError>)
    ensures
        fault_outcome(r, length_fault(len)),
{
    if len == 0 {
        Err(TyError::Confinement(ConfinementError::Undersize { len: 0, min_len: 1 }))
    } else {
        Ok(())
    }
}

impl KeyTy {
    /// What is wrong with the key type, if anything is: an array without
    /// items, or a sizing whose bounds are out of order.
    pub open spec fn fault(&self) -> Option<TagFault> {
        match self {
            KeyTy::Primitive(_) => None,
            KeyTy::Array(len) => length_fault(*len),
            KeyTy::UnicodeStr(sizing) => sizing_fault(*sizing),
            KeyTy::AsciiStr(sizing) => sizing_fault(*sizing),
            KeyTy::Bytes(sizing) => sizing_fault(*sizing),
        }
    }

    /// Checks the invariants of the key type.
    pub fn check_wf(&self) -> (r: Result<(), TyError>)
        ensures
            fault_outcome(r, self.fault()),
            r is Ok <==> self.wf(),
    {
        match self {
            KeyTy::Primitive(_) => Ok(()),
            KeyTy::Array(len) => check_length(*len),
            KeyTy::UnicodeStr(sizing) => check_sizing(sizing),
            KeyTy::AsciiStr(sizing) => check_sizing(sizing),
            KeyTy::Bytes(sizing) => check_sizing(sizing),
        }
    }
}

/// What is wrong with the item at position `i`, given the items before it:
/// its ordinal stands there already; or, in a structure, its ordinal is
/// smaller than the one before; or its name stands there already.
pub open spec fn clash_at(tags: Seq<Tag>, ordered: bool, i: int) -> Option<TagFault> {
    if position_of_ord(tags, tags[i].ord, 0) != Some(i) {
        Some(TagFault::RepeatedOrd(tags[i].ord))
    } else if ordered && i > 0 && tags[i - 1].ord > tags[i].ord {
        Some(TagFault::UnorderedOrd(tags[i].ord))
    } else if tags[i].name is Some && position_of_name(tags, tags[i].name->0, 0) != Some(i) {
        Some(TagFault::RepeatedName(tags[i].name->0))
    } else {
        None
    }
}

/// The first thing that is wrong with the items from position `from` on.
pub open spec fn first_clash(tags: Seq<Tag>, ordered: bool, from: int) -> Option<TagFault>
    decreases tags.len() - from,
{
    if from < 0 || from >= tags.len() {
        None
    } else {
        match clash_at(tags, ordered, from) {
            Some(fault) => Some(fault),
            None => first_clash(tags, ordered, from + 1),
        }
    }
}

/// What is wrong with the items of a type that holds `max` of them at
/// most, if anything is: their number first, then the first item that
/// clashes with the items before it.
pub open spec fn tags_fault(tags: Seq<Tag>, max: int, ordered: bool) -> Option<TagFault> {
    if tags.len() == 0 {
        Some(TagFault::Undersize)
    } else if tags.len() > max {
        Some(TagFault::Oversize)
    } else {
        first_clash(tags, ordered, 0)
    }
}

/// The items from `from` on clash with nothing where, from there on, no
/// ordinal and no name stands at an earlier position too and, in a
/// structure, no ordinal is smaller than the one before it.
pub proof fn lemma_first_clash(tags: Seq<Tag>, ordered: bool, from: int)
    requires
        0 <= from,
    ensures
        first_clash(tags, ordered, from) is None <==> forall|i: int|
            from <= i < tags.len() ==> clash_at(tags, ordered, i) is None,
    decreases tags.len() - from,
{
    if from < tags.len() {
        lemma_first_clash(tags, ordered, from + 1);
        if first_clash(tags, ordered, from) is None {
            assert forall|i: int| from <= i < tags.len() implies clash_at(tags, ordered, i)
                is None by {
                if i > from {
                }
            }
        }
    }
}

/// Items without fault are as many as the type can hold, with distinct
/// ordinals and names, and in a structure with ordinals in their order.
pub proof fn lemma_tags_fault(tags: Seq<Tag>, max: int, ordered: bool)
    ensures
        tags_fault(tags, max, ordered) is None <==> 1 <= tags.len() <= max && tags_distinct(tags)
            && (ordered ==> ords_increasing(tags)),
{
    lemma_first_clash(tags, ordered, 0);
    if 1 <= tags.len() <= max {
        if first_clash(tags, ordered, 0) is None {
            assert forall|i: int, j: int| 0 <= i < j < tags.len() implies tags[i].ord
                != tags[j].ord by {
                assert(clash_at(tags, ordered, j) is None);
                lemma_position_of_ord(tags, tags[j].ord, 0);
            }
            assert forall|i: int, j: int|
                0 <= i < j < tags.len() && tags[i].name is Some implies tags[i].name
                != tags[j].name by {
                assert(clash_at(tags, ordered, j) is None);
                if tags[j].name is Some {
                    lemma_position_of_name(tags, tags[j].name->0, 0);
                }
            }
            if ordered {
                lemma_adjacent_increasing(tags, tags.len() as int);
            }
        }
        if tags_distinct(tags) && (ordered ==> ords_increasing(tags)) {
            assert forall|i: int| 0 <= i < tags.len() implies clash_at(tags, ordered, i)
                is None by {
                lemma_position_of_ord(tags, tags[i].ord, 0);
                if tags[i].name is Some {
                    lemma_position_of_name(tags, tags[i].name->0, 0);
                }
            }
        }
    }
}

/// Ordinals of which none is smaller than the one before it, and none
/// stands twice, grow from each position to the next among the first `n`.
proof fn lemma_adjacent_increasing(tags: Seq<Tag>, n: int)
    requires
        0 <= n <= tags.len(),
        forall|i: int| 0 <= i < tags.len() ==> clash_at(tags, true, i) is None,
    ensures
        forall|i: int, j: int| 0 <= i < j < n ==> tags[i].ord < tags[j].ord,
    decreases n,
{
    if n > 1 {
        lemma_adjacent_increasing(tags, n - 1);
        assert forall|i: int, j: int| 0 <= i < j < n implies tags[i].ord < tags[j].ord by {
            if j == n - 1 {
                assert(clash_at(tags, true, j) is None);
                lemma_position_of_ord(tags, tags[j].ord, 0);
                assert(tags[j - 1].ord <= tags[j].ord);
                assert(tags[j - 1].ord != tags[j].ord);
                if i < j - 1 {
                    assert(tags[i].ord < tags[j - 1].ord);
                }
            }
        }
    }
}

/// Checks the items of a type that holds `max` of them at most.
pub fn check_tags<T: Tagged>(items: &Vec<T>, max: usize, ordered: bool) -> (r: Result<
    (),
    TyError,
>)
    ensures
        match r {
            Ok(()) => tags_fault(tags_of(items@), max as int, ordered) is None,
            Err(e) => tags_fault(tags_of(items@), max as int, ordered) == Some(e.fault()),
        },
{
    let ghost tags = tags_of(items@);
    if items.len() == 0 {
        return Err(TyError::Confinement(ConfinementError::Undersize { len: 0, min_len: 1 }));
    }
    if items.len() > max {
        return Err(
            TyError::Confinement(ConfinementError::Oversize { len: items.len(), max_len: max }),
        );
    }
    let mut i: usize = 0;
    while i < items.len()
        invariant
            i <= items.len(),
            1 <= items.len() <= max,
            tags == tags_of(items@),
            first_clash(tags, ordered, 0) == first_clash(tags, ordered, i as int),
        decreases items.len() - i,
    {
        let ord = items[i].ord();
        let first = find_ord(items, ord);
        proof {
            lemma_position_of_ord(tags, ord, 0);
        }
        match first {
            Some(j) => {
                if j != i {
                    return Err(TyError::RepeatedOrd(ord));
                }
            },
            None => {},
        }
        if ordered && i > 0 && items[i - 1].ord() > ord {
            return Err(TyError::UnorderedOrd(ord));
        }
        match items[i].name() {
            Some(name) => {
                let first = find_name(items, name);
                proof {
                    lemma_position_of_name(tags, name@, 0);
                }
                match first {
                    Some(j) => {
                        if j != i {
                            return Err(TyError::RepeatedName(name.clone()));
                        }
                    },
                    None => {},
                }
            },
            None => {},
        }
        i += 1;
    }
    Ok(())
}

impl<R> Ty<R> {
    /// An enumeration of the given variants: from 1 to 256, with distinct
    /// ordinals and names.
    pub fn enumerate(variants: Vec<Variant>) -> (r: Result<Ty<R>, TyError>)
        ensures
            match r {
                Ok(ty) => ty == Ty::<R>::Enum(variants) && ty.wf(),
                Err(e) => tags_fault(tags_of(variants@), MAX_VARIANTS as int, false) == Some(
                    e.fault(),
                ) && !Ty::<R>::Enum(variants).wf(),
            },
    {
        proof {
            lemma_tags_fault(tags_of(variants@), MAX_VARIANTS as int, false);
        }
        match check_tags(&variants, MAX_VARIANTS, false) {
            Ok(()) => Ok(Ty::Enum(variants)),
            Err(e) => Err(e),
        }
    }

    /// A union of the given alternatives: from 1 to 256, with distinct
    /// ordinals and names.
    pub fn union(fields: Vec<Field<R>>) -> (r: Result<Ty<R>, TyError>)
        ensures
            match r {
                Ok(ty) => ty == Ty::Union(fields) && ty.wf(),
                Err(e) => tags_fault(tags_of(fields@), MAX_VARIANTS as int, false) == Some(
                    e.fault(),
                ) && !Ty::Union(fields).wf(),
            },
    {
        proof {
            lemma_tags_fault(tags_of(fields@), MAX_VARIANTS as int, false);
        }
        match check_tags(&fields, MAX_VARIANTS, false) {
            Ok(()) => Ok(Ty::Union(fields)),
            Err(e) => Err(e),
        }
    }

    /// A structure of the given fields: from 1 to 255, with distinct names
    /// and with ordinals that grow from each field to the next.
    pub fn composition(fields: Vec<Field<R>>) -> (r: Result<Ty<R>, TyError>)
        ensures
            match r {
                Ok(ty) => ty == Ty::Struct(fields) && ty.wf(),
                Err(e) => tags_fault(tags_of(fields@), MAX_FIELDS as int, true) == Some(
                    e.fault(),
                ) && !Ty::Struct(fields).wf(),
            },
    {
        proof {
            lemma_tags_fault(tags_of(fields@), MAX_FIELDS as int, true);
        }
        match check_tags(&fields, MAX_FIELDS, true) {
            Ok(()) => Ok(Ty::Struct(fields)),
            Err(e) => Err(e),
        }
    }

    /// An array of `len` items, one at least.
    pub fn array(item: R, len: u16) -> (r: Result<Ty<R>, TyError>)
        ensures
            match r {
                Ok(ty) => len >= 1 && ty == Ty::Array(item, len) && ty.wf(),
                Err(e) => len == 0 && e.fault() == TagFault::Undersize,
            },
    {
        if len == 0 {
            Err(TyError::Confinement(ConfinementError::Undersize { len: 0, min_len: 1 }))
        } else {
            Ok(Ty::Array(item, len))
        }
    }
}

impl<R> Ty<R> {
    /// What is wrong with the type itself, if anything is: the first fault
    /// of its items, an array without items, a key type with a fault, or a
    /// sizing whose bounds are out of order. The types nested in it are not
    /// looked at.
    pub open spec fn fault(&self) -> Option<TagFault> {
        match self {
            Ty::Primitive(_) => None,
            Ty::Enum(_) => tags_fault(self.tags(), MAX_VARIANTS as int, false),
            Ty::Union(_) => tags_fault(self.tags(), MAX_VARIANTS as int, false),
            Ty::Struct(_) => tags_fault(self.tags(), MAX_FIELDS as int, true),
            Ty::Array(_, len) => length_fault(*len),
            Ty::List(_, sizing) => sizing_fault(*sizing),
            Ty::SetOf(_, sizing) => sizing_fault(*sizing),
            Ty::MapOf(key, _, sizing) => match key.fault() {
                Some(fault) => Some(fault),
                None => sizing_fault(*sizing),
            },
            Ty::Unicode(sizing) => sizing_fault(*sizing),
        }
    }

    /// A type is without fault where it meets its invariants, and only
    /// there.
    pub proof fn lemma_fault(&self)
        ensures
            self.fault() is None <==> self.wf(),
    {
        match self {
            Ty::Enum(_) => {
                lemma_tags_fault(self.tags(), MAX_VARIANTS as int, false);
            },
            Ty::Union(_) => {
                lemma_tags_fault(self.tags(), MAX_VARIANTS as int, false);
            },
            Ty::Struct(_) => {
                lemma_tags_fault(self.tags(), MAX_FIELDS as int, true);
            },
            _ => {},
        }
    }

    /// Checks the invariants of the type itself, and fails with its first
    /// fault.
    pub fn check_wf(&self) -> (r: Result<(), TyError>)
        ensures
            fault_outcome(r, self.fault()),
            r is Ok <==> self.wf(),
    {
        proof {
            self.lemma_fault();
        }
        match self {
            Ty::Primitive(_) => Ok(()),
            Ty::Enum(variants) => check_tags(variants, MAX_VARIANTS, false),
            Ty::Union(fields) => check_tags(fields, MAX_VARIANTS, false),
            Ty::Struct(fields) => check_tags(fields, MAX_FIELDS, true),
            Ty::Array(_, len) => check_length(*len),
            Ty::List(_, sizing) => check_sizing(sizing),
            Ty::SetOf(_, sizing) => check_sizing(sizing),
            Ty::MapOf(key, _, sizing) => match key.check_wf() {
                Ok(()) => check_sizing(sizing),
                Err(e) => Err(e),
            },
            Ty::Unicode(sizing) => check_sizing(sizing),
        }
    }
}

} // verus!
