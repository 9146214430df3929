//! Paths into a type: steps through fields, alternatives and items down to
//! a nested type.

use vstd::prelude::*;
use vstd::string::*;
use crate::ast::text::RefText;
use crate::ast::ty::{find_name, find_ord, position_of_name, position_of_ord, tags_of, Field, Ty};
use crate::render::{decimal, push_decimal};
use crate::util::{ConfinementError, FieldName};

verus! {

/// One step from a type to a type nested in it.
#[derive(Ord, PartialOrd, Eq, PartialEq, Hash, Debug)]
pub enum Step {
    /// Into the field or alternative with this name.
    NamedField(FieldName),
    /// Into the field or alternative with this ordinal.
    UnnamedField(u8),
    /// Into the items of an array.
    Index,
    /// Into the items of a list.
    List,
    /// Into the items of a set.
    SetOf,
    /// Into the values of a map.
    MapOf,
}

impl Clone for Step {
    fn clone(&self) -> (r: Self)
        ensures
            r == *self,
    {
        match self {
            Step::NamedField(name) => Step::NamedField(name.clone()),
            Step::UnnamedField(ord) => Step::UnnamedField(*ord),
            Step::Index => Step::Index,
            Step::List => Step::List,
            Step::SetOf => Step::SetOf,
            Step::MapOf => Step::MapOf,
        }
    }
}

impl Step {
    /// The textual form of a step.
    pub open spec fn spec_text(&self) -> Seq<char> {
        match self {
            Step::NamedField(name) => "."@ + name@,
            Step::UnnamedField(ord) => "."@ + decimal(*ord as nat),
            Step::Index => "#"@,
            Step::List => "[]"@,
            Step::SetOf => "{}"@,
            Step::MapOf => "->"@,
        }
    }

    /// Renders the textual form.
    pub fn to_string(&self) -> (s: String)
        ensures
            s@ == self.spec_text(),
    {
        match self {
            Step::NamedField(name) => {
                let mut out = String::from_str(".");
                out.append(name.as_str());
                out
            },
            Step::UnnamedField(ord) => {
                let mut out = String::from_str(".");
                push_decimal(&mut out, *ord as u128);
                out
            },
            Step::Index => String::from_str("#"),
            Step::List => String::from_str("[]"),
            Step::SetOf => String::from_str("{}"),
            Step::MapOf => String::from_str("->"),
        }
    }
}

/// The most steps that a path can hold.
pub const MAX_STEPS: usize = 65535;

/// The texts of the first `n` steps, one after the other.
pub open spec fn steps_text(steps: Seq<Step>, n: int) -> Seq<char>
    decreases n,
{
    if n <= 0 {
        Seq::empty()
    } else {
        steps_text(steps, n - 1) + steps[n - 1].spec_text()
    }
}

/// A sequence of up to 65535 steps, taken from the first to the last. The
/// steps are held in a confined vector of `amplify`, which keeps the bound.
#[verifier::external_body]
#[derive(Ord, PartialOrd, Eq, PartialEq, Hash, Debug)]
pub struct Path {
    steps: amplify::confinement::SmallVec<Step>,
}

/// The steps that a path holds, in their order.
pub uninterp spec fn path_steps(path: Path) -> Seq<Step>;

/// Calls `amplify::confinement::Confined::new`, which makes the confined
/// vector that holds no item.
#[verifier::external_body]
fn steps_new() -> (r: Path)
    ensures
        path_steps(r) == Seq::<Step>::empty(),
{
    Path { steps: amplify::confinement::Confined::new() }
}

/// Calls `amplify::confinement::Confined::as_unconfined`, which hands out the
/// vector inside the confined one. A confined vector never holds more items
/// than its upper bound, here 65535: every way to make or change one checks
/// that.
#[verifier::external_body]
fn steps_as_vec(path: &Path) -> (r: &Vec<Step>)
    ensures
        r@ == path_steps(*path),
        r@.len() <= MAX_STEPS,
{
    path.steps.as_unconfined()
}

/// Calls `amplify::confinement::Confined::push`, which appends the item
/// where the vector holds fewer items than its upper bound, and else fails
/// and leaves the vector as it is. The result tells whether it appended.
#[verifier::external_body]
fn steps_push(path: &mut Path, step: Step) -> (r: bool)
    ensures
        r == (path_steps(*old(path)).len() < MAX_STEPS),
        r ==> path_steps(*final(path)) == path_steps(*old(path)).push(step),
        !r ==> path_steps(*final(path)) == path_steps(*old(path)),
{
    path.steps.push(step).is_ok()
}

/// Calls `amplify::confinement::Confined::try_from`, which takes the vector
/// as it is where it holds no more items than the upper bound, and fails
/// else.
#[verifier::external_body]
fn steps_from_vec(steps: Vec<Step>) -> (r: Option<Path>)
    ensures
        match r {
            Some(path) => steps@.len() <= MAX_STEPS && path_steps(path) == steps@,
            None => steps@.len() > MAX_STEPS,
        },
{
    match amplify::confinement::Confined::try_from(steps) {
        Ok(steps) => Some(Path { steps }),
        Err(_) => None,
    }
}

impl View for Path {
    type V = Seq<Step>;

    open spec fn view(&self) -> Seq<Step> {
        path_steps(*self)
    }
}

impl Clone for Path {
    fn clone(&self) -> (r: Self)
        ensures
            r@ == self@,
    {
        let r = self.prefix(self.len());
        assert(self@.subrange(0, self@.len() as int) =~= self@);
        r
    }
}

impl Path {
    /// The path without steps.
    pub fn new() -> (r: Path)
        ensures
            r@ == Seq::<Step>::empty(),
    {
        steps_new()
    }

    /// The path of one step.
    pub fn with(step: Step) -> (r: Path)
        ensures
            r@ == seq![step],
    {
        let mut path = steps_new();
        let _ = steps_push(&mut path, step);
        assert(path@ =~= seq![step]);
        path
    }

    /// The number of steps.
    pub fn len(&self) -> (n: usize)
        ensures
            n == self@.len(),
            n <= MAX_STEPS,
    {
        steps_as_vec(self).len()
    }

    /// The step at position `i`.
    pub fn get(&self, i: usize) -> (step: &Step)
        requires
            i < self@.len(),
        ensures
            *step == self@[i as int],
    {
        &steps_as_vec(self)[i]
    }

    /// The steps in their order.
    pub fn iter(&self) -> (steps: &Vec<Step>)
        ensures
            steps@ == self@,
    {
        steps_as_vec(self)
    }

    /// Appends a step, unless the path is full.
    pub fn push(&mut self, step: Step) -> (r: Result<(), ConfinementError>)
        ensures
            match r {
                Ok(()) => old(self)@.len() < MAX_STEPS && final(self)@ == old(self)@.push(step),
                Err(e) => old(self)@.len() == MAX_STEPS && final(self)@ == old(self)@ && e == (
                ConfinementError::Oversize { len: (MAX_STEPS + 1) as usize, max_len: MAX_STEPS }),
            },
    {
        let len = self.len();
        if steps_push(self, step) {
            Ok(())
        } else {
            Err(ConfinementError::Oversize { len: len + 1, max_len: MAX_STEPS })
        }
    }

    /// The first `n` steps of the path.
    pub fn prefix(&self, n: usize) -> (r: Path)
        requires
            n <= self@.len(),
        ensures
            r@ == self@.subrange(0, n as int),
    {
        let all = steps_as_vec(self);
        let mut steps: Vec<Step> = Vec::new();
        let mut i: usize = 0;
        while i < n
            invariant
                i <= n <= all@.len(),
                steps@ == all@.subrange(0, i as int),
            decreases n - i,
        {
            steps.push(all[i].clone());
            assert(all@.subrange(0, i + 1) == all@.subrange(0, i as int).push(all@[i as int]));
            i += 1;
        }
        match steps_from_vec(steps) {
            Some(path) => path,
            None => steps_new(),
        }
    }

    /// The textual form: the texts of the steps, one after the other.
    pub open spec fn spec_text(&self) -> Seq<char> {
        steps_text(self@, self@.len() as int)
    }

    /// Renders the textual form.
    pub fn to_string(&self) -> (s: String)
        ensures
            s@ == self.spec_text(),
    {
        let steps = steps_as_vec(self);
        let mut out = String::new();
        let mut i: usize = 0;
        while i < steps.len()
            invariant
                i <= steps.len(),
                out@ == steps_text(steps@, i as int),
            decreases steps.len() - i,
        {
            let text = steps[i].to_string();
            out.append(text.as_str());
            i += 1;
        }
        out
    }
}

/// No type stands at a path within a type: the type, and the path up to the
/// step that could not be taken, that step included.
#[derive(Debug)]
pub struct PathError<'ty, R> {
    pub ty: &'ty Ty<R>,
    pub path: Path,
}

impl<'ty, R> PathError<'ty, R> {
    /// The error that no type stands at `path` within `ty`.
    pub fn new(ty: &'ty Ty<R>, path: Path) -> (r: Self)
        ensures
            r.ty == ty,
            r.path == path,
    {
        PathError { ty, path }
    }
}

impl<'ty, R: RefText> PathError<'ty, R> {
    /// The message of the error: the path that does not exist, and the
    /// type within which it was looked for, in its textual form.
    pub open spec fn spec_text(&self) -> Seq<char> {
        "no type path "@ + self.path.spec_text() + " exists within type "@ + self.ty.spec_text()
    }

    /// Renders the message of the error.
    pub fn to_string(&self) -> (s: String)
        ensures
            s@ == self.spec_text(),
    {
        let mut out = String::from_str("no type path ");
        let path = self.path.to_string();
        out.append(path.as_str());
        out.append(" exists within type ");
        let ty = self.ty.to_string();
        out.append(ty.as_str());
        out
    }
}

/// A reference that may hold the type it stands for.
pub trait NestedRef: Sized {
    /// The type that the reference holds, if it holds one.
    spec fn nested(&self) -> Option<Ty<Self>>;

    fn as_ty(&self) -> (r: Option<&Ty<Self>>)
        ensures
            match r {
                Some(ty) => self.nested() == Some(*ty),
                None => self.nested() is None,
            },
    ;
}

/// The reference that `step` selects among `fields`: by name the first
/// field with that name, by ordinal the first with that ordinal.
pub open spec fn field_ref<R>(fields: Seq<Field<R>>, step: Step) -> Option<R> {
    match step {
        Step::NamedField(name) => match position_of_name(tags_of(fields), name@, 0) {
            Some(i) => Some(fields[i].ty),
            None => None,
        },
        Step::UnnamedField(ord) => match position_of_ord(tags_of(fields), ord, 0) {
            Some(i) => Some(fields[i].ty),
            None => None,
        },
        _ => None,
    }
}

/// Selects a field by name or by ordinal.
fn select_field<'a, R>(fields: &'a Vec<Field<R>>, step: &Step) -> (r: Option<&'a R>)
    ensures
        match r {
            Some(r) => field_ref(fields@, *step) == Some(*r),
            None => field_ref(fields@, *step) is None,
        },
{
    let found = match step {
        Step::NamedField(name) => find_name(fields, name),
        Step::UnnamedField(ord) => find_ord(fields, *ord),
        _ => None,
    };
    match found {
        Some(i) => Some(&fields[i].ty),
        None => None,
    }
}

impl<R> Ty<R> {
    /// The number of references to nested types that the type holds: its
    /// fields or alternatives, one for a collection, none otherwise.
    pub fn count_subtypes(&self) -> (n: u8)
        requires
            self.refs().len() <= 255,
        ensures
            n == self.refs().len(),
    {
        match self {
            Ty::Primitive(_) => 0,
            Ty::Enum(_) => 0,
            Ty::Union(fields) => fields.len() as u8,
            Ty::Struct(fields) => fields.len() as u8,
            Ty::Array(_, _) => 1,
            Ty::Unicode(_) => 0,
            Ty::List(_, _) | Ty::SetOf(_, _) | Ty::MapOf(_, _, _) => 1,
        }
    }

    /// The reference that `step` selects in the type: a field or an
    /// alternative of a structure or a union, the items of an array, a list
    /// or a set, the values of a map. None where the type does not admit the
    /// step.
    pub open spec fn step_ref(&self, step: Step) -> Option<R> {
        match self {
            Ty::Struct(fields) => field_ref(fields@, step),
            Ty::Union(fields) => field_ref(fields@, step),
            Ty::Array(r, _) => if step is Index {
                Some(*r)
            } else {
                None
            },
            Ty::List(r, _) => if step is List {
                Some(*r)
            } else {
                None
            },
            Ty::SetOf(r, _) => if step is SetOf {
                Some(*r)
            } else {
                None
            },
            Ty::MapOf(_, r, _) => if step is MapOf {
                Some(*r)
            } else {
                None
            },
            _ => None,
        }
    }

    /// Selects the reference that `step` leads to.
    pub fn select(&self, step: &Step) -> (r: Option<&R>)
        ensures
            match r {
                Some(r) => self.step_ref(*step) == Some(*r),
                None => self.step_ref(*step) is None,
            },
    {
        match (self, step) {
            (Ty::Struct(fields), _) => select_field(fields, step),
            (Ty::Union(fields), _) => select_field(fields, step),
            (Ty::Array(r, _), Step::Index) => Some(r),
            (Ty::List(r, _), Step::List) => Some(r),
            (Ty::SetOf(r, _), Step::SetOf) => Some(r),
            (Ty::MapOf(_, r, _), Step::MapOf) => Some(r),
            (_, _) => None,
        }
    }
}

/// Where the steps of `path` from position `from` on lead from `ty`: the
/// type reached, or the position of the first step that cannot be taken,
/// because the type there does not admit it or the reference holds no type.
pub open spec fn resolve<R: NestedRef>(ty: Ty<R>, path: Seq<Step>, from: int) -> Result<
    Ty<R>,
    int,
>
    decreases path.len() - from,
{
    if from < 0 || from >= path.len() {
        Ok(ty)
    } else {
        match ty.step_into(path[from]) {
            Some(next) => resolve(next, path, from + 1),
            None => Err(from),
        }
    }
}

impl<R: NestedRef> Ty<R> {
    /// The type that `step` leads to.
    pub open spec fn step_into(&self, step: Step) -> Option<Ty<R>> {
        match self.step_ref(step) {
            Some(r) => r.nested(),
            None => None,
        }
    }

    /// Follows `path` from this type, step by step from the first. An
    /// empty path leads to the type itself. Where a step cannot be taken the
    /// error holds this type and the path up to that step, the step included.
    pub fn at_path<'ty>(&'ty self, path: &Path) -> (r: Result<&'ty Ty<R>, PathError<'ty, R>>)
        ensures
            match r {
                Ok(ty) => resolve(*self, path@, 0) == Ok::<Ty<R>, int>(*ty),
                Err(e) => resolve(*self, path@, 0) matches Err(k) && e.ty == self && e.path@
                    == path@.subrange(0, k + 1),
            },
    {
        let mut ty = self;
        let mut i: usize = 0;
        while i < path.len()
            invariant
                i <= path@.len(),
                resolve(*self, path@, 0) == resolve(*ty, path@, i as int),
            decreases path@.len() - i,
        {
            let next = match ty.select(path.get(i)) {
                Some(r) => r.as_ty(),
                None => None,
            };
            match next {
                Some(t) => {
                    ty = t;
                },
                None => {
                    return Err(PathError::new(self, path.prefix(i + 1)));
                },
            }
            i += 1;
        }
        Ok(ty)
    }
}

} // verus!
