//! Scalars that the schema is built from: validated names, sizing bounds of
//! collections and version labels.

use vstd::prelude::*;
use vstd::string::*;
use vstd::utf8::is_ascii_chars;
use crate::render::{decimal, hex_prefixed, push_decimal, push_hex_prefixed};
pub use crate::typelib::id::Urn;

verus! {

/// An ASCII letter.
pub open spec fn is_alpha(c: char) -> bool {
    ('a' <= c && c <= 'z') || ('A' <= c && c <= 'Z')
}

/// An ASCII letter, a decimal digit or an underscore.
pub open spec fn is_ident_char(c: char) -> bool {
    is_alpha(c) || ('0' <= c && c <= '9') || c == '_'
}

/// What makes a name valid: one to 32 characters, a letter first, then
/// letters, digits and underscores.
pub open spec fn valid_ident(s: Seq<char>) -> bool {
    &&& 1 <= s.len() <= 32
    &&& is_alpha(s[0])
    &&& forall|i: int| 0 <= i < s.len() ==> is_ident_char(#[trigger] s[i])
}

/// Position `k` holds the first character of `s` that no name may hold.
pub open spec fn first_invalid_at(s: Seq<char>, k: int) -> bool {
    &&& 0 <= k < s.len()
    &&& !is_ident_char(s[k])
    &&& forall|j: int| 0 <= j < k ==> is_ident_char(#[trigger] s[j])
}

/// Why `s` is no valid name, if it is none. The tests apply in this order:
/// characters outside ASCII, no character at all, a first character that is
/// no letter, another character that no name may hold, more than 32
/// characters.
pub open spec fn ident_error(s: Seq<char>) -> Option<InvalidIdent> {
    if !is_ascii_chars(s) {
        Some(InvalidIdent::NonAscii)
    } else if s.len() == 0 {
        Some(InvalidIdent::Empty)
    } else if !is_alpha(s[0]) {
        Some(InvalidIdent::NonAlphabetic(s[0]))
    } else if exists|k: int| first_invalid_at(s, k) {
        Some(InvalidIdent::InvalidChar(s[choose|k: int| first_invalid_at(s, k)]))
    } else if s.len() > 32 {
        Some(InvalidIdent::LengthOutOfRange)
    } else {
        None
    }
}

/// `a` and `b` agree on their first `k` characters.
pub open spec fn common_prefix(a: Seq<char>, b: Seq<char>, k: int) -> bool {
    &&& 0 <= k <= a.len()
    &&& k <= b.len()
    &&& forall|i: int| 0 <= i < k ==> a[i] == b[i]
}

/// `a` and `b` part ways after `k` characters, and `a` comes first there.
pub open spec fn lex_lt_at(a: Seq<char>, b: Seq<char>, k: int) -> bool {
    &&& common_prefix(a, b, k)
    &&& (k == a.len() && k < b.len()) || (k < a.len() && k < b.len() && a[k] < b[k])
}

/// The order of names: character by character, a proper prefix first.
pub open spec fn lex_lt(a: Seq<char>, b: Seq<char>) -> bool {
    exists|k: int| lex_lt_at(a, b, k)
}

/// The order of names is irreflexive.
pub proof fn lemma_lex_irreflexive(a: Seq<char>)
    ensures
        !lex_lt(a, a),
{
}

/// The order of names is transitive.
pub proof fn lemma_lex_transitive(a: Seq<char>, b: Seq<char>, c: Seq<char>)
    requires
        lex_lt(a, b),
        lex_lt(b, c),
    ensures
        lex_lt(a, c),
{
    let k1 = choose|k: int| lex_lt_at(a, b, k);
    let k2 = choose|k: int| lex_lt_at(b, c, k);
    let k = if k1 <= k2 {
        k1
    } else {
        k2
    };
    assert(lex_lt_at(a, c, k));
}

/// Of two different names one comes before the other.
pub proof fn lemma_lex_total(a: Seq<char>, b: Seq<char>)
    ensures
        a == b || lex_lt(a, b) || lex_lt(b, a),
    decreases a.len(),
{
    if a =~= b {
    } else if exists|i: int| 0 <= i < a.len() && i < b.len() && a[i] != b[i] {
        let k = choose|k: int| first_difference(a, b, k);
        assert(first_difference(a, b, k)) by {
            lemma_first_difference(a, b, a.len() as int);
        }
        if a[k] < b[k] {
            assert(lex_lt_at(a, b, k));
        } else {
            assert(lex_lt_at(b, a, k));
        }
    } else if a.len() < b.len() {
        assert(lex_lt_at(a, b, a.len() as int));
    } else {
        assert(lex_lt_at(b, a, b.len() as int));
    }
}

/// `a` and `b` first differ at position `k`.
pub open spec fn first_difference(a: Seq<char>, b: Seq<char>, k: int) -> bool {
    &&& common_prefix(a, b, k)
    &&& k < a.len()
    &&& k < b.len()
    &&& a[k] != b[k]
}

proof fn lemma_first_difference(a: Seq<char>, b: Seq<char>, n: int)
    requires
        exists|i: int| 0 <= i < n && i < a.len() && i < b.len() && a[i] != b[i],
    ensures
        exists|k: int| first_difference(a, b, k),
    decreases n,
{
    if exists|i: int| 0 <= i < n - 1 && i < a.len() && i < b.len() && a[i] != b[i] {
        lemma_first_difference(a, b, n - 1);
    } else {
        let i = choose|i: int| 0 <= i < n && i < a.len() && i < b.len() && a[i] != b[i];
        assert(i == n - 1);
        assert(first_difference(a, b, i));
    }
}

/// No name comes both before and after another.
pub proof fn lemma_lex_asymmetric(a: Seq<char>, b: Seq<char>)
    requires
        lex_lt(a, b),
    ensures
        !lex_lt(b, a),
{
    if lex_lt(b, a) {
        lemma_lex_transitive(a, b, a);
        lemma_lex_irreflexive(a);
    }
}

/// A collection holds fewer items than it must, or more than it can.
#[derive(Copy, Clone, Eq, PartialEq, Hash, Debug)]
pub enum ConfinementError {
    Undersize { len: usize, min_len: usize },
    Oversize { len: usize, max_len: usize },
}

/// Why a text was refused as a name.
#[derive(Copy, Clone, Eq, PartialEq, Hash, Debug)]
pub enum InvalidIdent {
    /// The text holds no character.
    Empty,
    /// The first character is no letter.
    NonAlphabetic(char),
    /// A character is neither a letter, a digit nor an underscore.
    InvalidChar(char),
    /// The text holds a character outside ASCII.
    NonAscii,
    /// The text holds more than 32 characters.
    LengthOutOfRange,
}

/// A validated name of a type, a field, a library or an alias.
#[derive(Eq, PartialEq, Ord, PartialOrd, Hash, Debug)]
pub struct Ident {
    name: String,
}

/// The name of a type.
pub type TypeName = Ident;

/// The name of a field, an alternative or a variant.
pub type FieldName = Ident;

/// The name of a library.
pub type LibName = Ident;

/// The alias under which a library depends on another.
pub type LibAlias = Ident;

impl View for Ident {
    type V = Seq<char>;

    closed spec fn view(&self) -> Seq<char> {
        self.name@
    }
}

impl Clone for Ident {
    fn clone(&self) -> (r: Self)
        ensures
            r == *self,
    {
        proof {
            use_type_invariant(self);
        }
        Ident { name: self.name.clone() }
    }
}

fn alpha_byte(b: u8) -> (r: bool)
    requires
        b < 128,
    ensures
        r == is_alpha(b as char),
{
    (0x61 <= b && b <= 0x7a) || (0x41 <= b && b <= 0x5a)
}

fn ident_byte(b: u8) -> (r: bool)
    requires
        b < 128,
    ensures
        r == is_ident_char(b as char),
{
    alpha_byte(b) || (0x30 <= b && b <= 0x39) || b == 0x5f
}

impl Ident {
    #[verifier::type_invariant]
    closed spec fn inv(&self) -> bool {
        valid_ident(self.name@)
    }

    /// Validates `s` as a name.
    pub fn try_from(s: String) -> (r: Result<Ident, InvalidIdent>)
        ensures
            match r {
                Ok(id) => ident_error(s@) is None && valid_ident(s@) && id@ == s@,
                Err(e) => ident_error(s@) == Some(e) && !valid_ident(s@),
            },
    {
        broadcast use vstd::string::group_string_axioms;

        if !s.is_ascii() {
            assert(!valid_ident(s@)) by {
                if valid_ident(s@) {
                    assert forall|i: int| 0 <= i < s@.len() implies '\0' <= #[trigger] s@[i]
                        <= '\u{7f}' by {
                        assert(is_ident_char(s@[i]));
                    }
                }
            }
            return Err(InvalidIdent::NonAscii);
        }
        let text = s.as_str();
        let n = text.unicode_len();
        if n == 0 {
            return Err(InvalidIdent::Empty);
        }
        let first = text.get_ascii(0);
        assert(first as char == s@[0]);
        if !alpha_byte(first) {
            return Err(InvalidIdent::NonAlphabetic(first as char));
        }
        let mut i: usize = 1;
        while i < n
            invariant
                1 <= i <= n,
                n == s@.len(),
                text@ == s@,
                text.is_ascii(),
                is_ascii_chars(s@),
                is_alpha(s@[0]),
                forall|j: int| 0 <= j < i ==> is_ident_char(#[trigger] s@[j]),
            decreases n - i,
        {
            let b = text.get_ascii(i);
            assert(b as char == s@[i as int]);
            if !ident_byte(b) {
                assert(first_invalid_at(s@, i as int));
                let ghost k = choose|k: int| first_invalid_at(s@, k);
                assert(k == i);
                assert(!is_ident_char(s@[i as int]));
                return Err(InvalidIdent::InvalidChar(b as char));
            }
            i += 1;
        }
        assert(!exists|k: int| first_invalid_at(s@, k));
        if n > 32 {
            return Err(InvalidIdent::LengthOutOfRange);
        }
        Ok(Ident { name: s })
    }

    /// Takes `s` as a name.
    pub fn from_str(s: &str) -> (r: Ident)
        requires
            valid_ident(s@),
        ensures
            r@ == s@,
    {
        Ident { name: String::from_str(s) }
    }

    /// The name as text.
    pub fn as_str(&self) -> (s: &str)
        ensures
            s@ == self@,
            valid_ident(s@),
    {
        proof {
            use_type_invariant(self);
        }
        self.name.as_str()
    }

    /// The name as text of its own.
    pub fn to_string(&self) -> (s: String)
        ensures
            s@ == self@,
    {
        self.name.clone()
    }

    /// The number of characters, from 1 to 32.
    pub fn len(&self) -> (n: u8)
        ensures
            n == self@.len(),
            1 <= n <= 32,
    {
        proof {
            use_type_invariant(self);
        }
        self.name.as_str().unicode_len() as u8
    }

    /// Whether the two names are the same.
    pub fn same(&self, other: &Ident) -> (r: bool)
        ensures
            r == (self@ == other@),
    {
        self.name == other.name
    }

    /// Whether this name comes before `other`.
    pub fn less(&self, other: &Ident) -> (r: bool)
        ensures
            r == lex_lt(self@, other@),
    {
        broadcast use vstd::string::group_string_axioms;

        proof {
            use_type_invariant(self);
            use_type_invariant(other);
        }
        let a = self.name.as_str();
        let b = other.name.as_str();
        assert(a.is_ascii()) by {
            assert forall|i: int| 0 <= i < a@.len() implies '\0' <= #[trigger] a@[i] <= '\u{7f}' by {
                assert(is_ident_char(a@[i]));
            }
        }
        assert(b.is_ascii()) by {
            assert forall|i: int| 0 <= i < b@.len() implies '\0' <= #[trigger] b@[i] <= '\u{7f}' by {
                assert(is_ident_char(b@[i]));
            }
        }
        let la = a.unicode_len();
        let lb = b.unicode_len();
        let mut i: usize = 0;
        while i < la && i < lb && a.get_ascii(i) == b.get_ascii(i)
            invariant
                la == a@.len(),
                lb == b@.len(),
                a.is_ascii(),
                b.is_ascii(),
                common_prefix(a@, b@, i as int),
            decreases la - i,
        {
            assert(a@[i as int] == b@[i as int]);
            i += 1;
        }
        let r = if i == la {
            i < lb
        } else if i == lb {
            false
        } else {
            a.get_ascii(i) < b.get_ascii(i)
        };
        proof {
            if r {
                assert(lex_lt_at(a@, b@, i as int));
            } else {
                assert forall|k: int| !lex_lt_at(a@, b@, k) by {
                    if lex_lt_at(a@, b@, k) {
                        if k < i {
                        } else if k > i {
                            assert(a@[i as int] == b@[i as int]);
                        }
                    }
                }
            }
        }
        r
    }
}

/// Inclusive bounds on the number of items in a variable-length collection.
#[derive(Copy, Clone, Eq, PartialEq, Hash, Debug)]
pub struct Sizing {
    pub min: u16,
    pub max: u16,
}

impl Sizing {
    /// Exactly one item.
    pub fn one() -> (r: Sizing)
        ensures
            r == (Sizing { min: 1, max: 1 }),
    {
        Sizing { min: 1, max: 1 }
    }

    /// Up to 255 items.
    pub fn u8_bound() -> (r: Sizing)
        ensures
            r == (Sizing { min: 0, max: 255 }),
    {
        Sizing { min: 0, max: 255 }
    }

    /// Up to 65535 items.
    pub fn u16_bound() -> (r: Sizing)
        ensures
            r == (Sizing { min: 0, max: 65535 }),
    {
        Sizing { min: 0, max: 65535 }
    }

    /// From one to 255 items.
    pub fn u8_nonempty() -> (r: Sizing)
        ensures
            r == (Sizing { min: 1, max: 255 }),
    {
        Sizing { min: 1, max: 255 }
    }

    /// From one to 65535 items.
    pub fn u16_nonempty() -> (r: Sizing)
        ensures
            r == (Sizing { min: 1, max: 65535 }),
    {
        Sizing { min: 1, max: 65535 }
    }

    /// Bounds are well formed when the lower one does not exceed the upper one.
    pub open spec fn wf(&self) -> bool {
        self.min <= self.max
    }

    /// The bounds from `min` to `max`.
    pub fn new(min: u16, max: u16) -> (r: Sizing)
        ensures
            r.min == min,
            r.max == max,
    {
        Sizing { min, max }
    }

    /// The bounds that admit `len` items and no other number.
    pub fn fixed(len: u16) -> (r: Sizing)
        ensures
            r.min == len,
            r.max == len,
            r.wf(),
    {
        Sizing { min: len, max: len }
    }

    /// The suffix that a collection's textual form carries for these bounds.
    pub open spec fn spec_suffix(&self) -> Seq<char> {
        if self.min == 0 && self.max == 0xFFFF {
            Seq::empty()
        } else if self.min == 0 {
            " ^ .."@ + decimal(self.max as nat)
        } else if self.max == 0xFFFF {
            " ^ "@ + decimal(self.min as nat) + ".."@
        } else {
            " ^ "@ + decimal(self.min as nat) + ".."@ + hex_prefixed(self.max as nat)
        }
    }

    /// Renders the bounds as the suffix of a collection's textual form.
    pub fn to_string(&self) -> (s: String)
        ensures
            s@ == self.spec_suffix(),
    {
        let mut out = String::new();
        if self.min == 0 && self.max == 0xFFFF {
        } else if self.min == 0 {
            out.append(" ^ ..");
            push_decimal(&mut out, self.max as u128);
        } else if self.max == 0xFFFF {
            out.append(" ^ ");
            push_decimal(&mut out, self.min as u128);
            out.append("..");
        } else {
            out.append(" ^ ");
            push_decimal(&mut out, self.min as u128);
            out.append("..");
            push_hex_prefixed(&mut out, self.max);
        }
        assert(out@ =~= self.spec_suffix());
        out
    }
}

/// A fragment of the pre-release part of a version.
#[derive(Eq, PartialEq, Hash, Debug)]
pub enum PreFragment {
    Ident(Ident),
    Digits(u128),
}

/// A fragment of the build part of a version.
#[derive(Eq, PartialEq, Hash, Debug)]
pub enum BuildFragment {
    Ident(Ident),
    Digits(Ident),
}

impl Clone for PreFragment {
    fn clone(&self) -> (r: Self)
        ensures
            r == *self,
    {
        match self {
            PreFragment::Ident(name) => PreFragment::Ident(name.clone()),
            PreFragment::Digits(n) => PreFragment::Digits(*n),
        }
    }
}

impl Clone for BuildFragment {
    fn clone(&self) -> (r: Self)
        ensures
            r == *self,
    {
        match self {
            BuildFragment::Ident(name) => BuildFragment::Ident(name.clone()),
            BuildFragment::Digits(digits) => BuildFragment::Digits(digits.clone()),
        }
    }
}

impl PreFragment {
    /// The textual form.
    pub open spec fn spec_text(&self) -> Seq<char> {
        match self {
            PreFragment::Ident(name) => name@,
            PreFragment::Digits(n) => decimal(*n as nat),
        }
    }

    /// Renders the textual form.
    pub fn to_string(&self) -> (s: String)
        ensures
            s@ == self.spec_text(),
    {
        match self {
            PreFragment::Ident(name) => name.to_string(),
            PreFragment::Digits(n) => {
                let mut out = String::new();
                push_decimal(&mut out, *n);
                out
            },
        }
    }
}

impl BuildFragment {
    /// The textual form.
    pub open spec fn spec_text(&self) -> Seq<char> {
        match self {
            BuildFragment::Ident(name) => name@,
            BuildFragment::Digits(digits) => digits@,
        }
    }

    /// Renders the textual form.
    pub fn to_string(&self) -> (s: String)
        ensures
            s@ == self.spec_text(),
    {
        match self {
            BuildFragment::Ident(name) => name.to_string(),
            BuildFragment::Digits(digits) => digits.to_string(),
        }
    }
}

/// The texts of the first `n` fragments, with a dot between them.
pub open spec fn pre_text(items: Seq<PreFragment>, n: int) -> Seq<char>
    decreases n,
{
    if n <= 0 {
        Seq::empty()
    } else if n == 1 {
        items[0].spec_text()
    } else {
        pre_text(items, n - 1) + "."@ + items[n - 1].spec_text()
    }
}

/// The texts of the first `n` fragments, with a dot between them.
pub open spec fn build_text(items: Seq<BuildFragment>, n: int) -> Seq<char>
    decreases n,
{
    if n <= 0 {
        Seq::empty()
    } else if n == 1 {
        items[0].spec_text()
    } else {
        build_text(items, n - 1) + "."@ + items[n - 1].spec_text()
    }
}

/// The most fragments that either part of a version can hold.
pub const MAX_FRAGMENTS: usize = 255;

/// The pre-release fragments of a version: up to 255, held in a confined vector of
/// `amplify`, which keeps the bound.
#[verifier::external_body]
#[derive(Eq, PartialEq, Hash, Debug)]
pub struct PreFragments {
    items: amplify::confinement::TinyVec<PreFragment>,
}

/// The fragments that the vector holds, in their order.
pub uninterp spec fn pre_items(fragments: PreFragments) -> Seq<PreFragment>;

/// Calls `amplify::confinement::Confined::new`, which makes the confined
/// vector that holds no item.
#[verifier::external_body]
fn pre_new() -> (r: PreFragments)
    ensures
        pre_items(r) == Seq::<PreFragment>::empty(),
{
    PreFragments { items: amplify::confinement::Confined::new() }
}

/// Calls `amplify::confinement::Confined::as_unconfined`, which hands out the
/// vector inside the confined one. A confined vector never holds more items
/// than its upper bound, here 255: every way to make or change one checks
/// that.
#[verifier::external_body]
fn pre_as_vec(fragments: &PreFragments) -> (r: &Vec<PreFragment>)
    ensures
        r@ == pre_items(*fragments),
        r@.len() <= MAX_FRAGMENTS,
{
    fragments.items.as_unconfined()
}

/// Calls `amplify::confinement::Confined::push`, which appends the item
/// where the vector holds fewer items than its upper bound, and else fails
/// and leaves the vector as it is. The result tells whether it appended.
#[verifier::external_body]
fn pre_push(fragments: &mut PreFragments, fragment: PreFragment) -> (r: bool)
    ensures
        r == (pre_items(*old(fragments)).len() < MAX_FRAGMENTS),
        r ==> pre_items(*final(fragments)) == pre_items(*old(fragments)).push(fragment),
        !r ==> pre_items(*final(fragments)) == pre_items(*old(fragments)),
{
    fragments.items.push(fragment).is_ok()
}

impl View for PreFragments {
    type V = Seq<PreFragment>;

    open spec fn view(&self) -> Seq<PreFragment> {
        pre_items(*self)
    }
}

impl Clone for PreFragments {
    fn clone(&self) -> (r: Self)
        ensures
            r@ == self@,
    {
        let items = pre_as_vec(self);
        let mut r = pre_new();
        let mut i: usize = 0;
        while i < items.len()
            invariant
                i <= items.len(),
                items@.len() <= MAX_FRAGMENTS,
                r@ == items@.subrange(0, i as int),
            decreases items.len() - i,
        {
            let _ = pre_push(&mut r, items[i].clone());
            assert(items@.subrange(0, i + 1) == items@.subrange(0, i as int).push(
                items@[i as int],
            ));
            i += 1;
        }
        assert(items@.subrange(0, items@.len() as int) == items@);
        r
    }
}

impl PreFragments {
    /// The vector without fragments.
    pub fn new() -> (r: PreFragments)
        ensures
            r@ == Seq::<PreFragment>::empty(),
    {
        pre_new()
    }

    /// The number of fragments.
    pub fn len(&self) -> (n: usize)
        ensures
            n == self@.len(),
            n <= MAX_FRAGMENTS,
    {
        pre_as_vec(self).len()
    }

    /// The fragments in their order.
    pub fn iter(&self) -> (items: &Vec<PreFragment>)
        ensures
            items@ == self@,
            items@.len() <= MAX_FRAGMENTS,
    {
        pre_as_vec(self)
    }

    /// Appends a fragment, unless the vector is full.
    pub fn push(&mut self, fragment: PreFragment) -> (r: Result<(), ConfinementError>)
        ensures
            match r {
                Ok(()) => old(self)@.len() < MAX_FRAGMENTS && final(self)@ == old(self)@.push(
                    fragment,
                ),
                Err(e) => old(self)@.len() == MAX_FRAGMENTS && final(self)@ == old(self)@ && e
                    == (ConfinementError::Oversize {
                    len: (MAX_FRAGMENTS + 1) as usize,
                    max_len: MAX_FRAGMENTS,
                }),
            },
    {
        let len = self.len();
        if pre_push(self, fragment) {
            Ok(())
        } else {
            Err(ConfinementError::Oversize { len: len + 1, max_len: MAX_FRAGMENTS })
        }
    }
}

/// The build fragments of a version: up to 255, held in a confined vector of
/// `amplify`, which keeps the bound.
#[verifier::external_body]
#[derive(Eq, PartialEq, Hash, Debug)]
pub struct BuildFragments {
    items: amplify::confinement::TinyVec<BuildFragment>,
}

/// The fragments that the vector holds, in their order.
pub uninterp spec fn build_items(fragments: BuildFragments) -> Seq<BuildFragment>;

/// Calls `amplify::confinement::Confined::new`, which makes the confined
/// vector that holds no item.
#[verifier::external_body]
fn build_new() -> (r: BuildFragments)
    ensures
        build_items(r) == Seq::<BuildFragment>::empty(),
{
    BuildFragments { items: amplify::confinement::Confined::new() }
}

/// Calls `amplify::confinement::Confined::as_unconfined`, which hands out the
/// vector inside the confined one. A confined vector never holds more items
/// than its upper bound, here 255: every way to make or change one checks
/// that.
#[verifier::external_body]
fn build_as_vec(fragments: &BuildFragments) -> (r: &Vec<BuildFragment>)
    ensures
        r@ == build_items(*fragments),
        r@.len() <= MAX_FRAGMENTS,
{
    fragments.items.as_unconfined()
}

/// Calls `amplify::confinement::Confined::push`, which appends the item
/// where the vector holds fewer items than its upper bound, and else fails
/// and leaves the vector as it is. The result tells whether it appended.
#[verifier::external_body]
fn build_push(fragments: &mut BuildFragments, fragment: BuildFragment) -> (r: bool)
    ensures
        r == (build_items(*old(fragments)).len() < MAX_FRAGMENTS),
        r ==> build_items(*final(fragments)) == build_items(*old(fragments)).push(fragment),
        !r ==> build_items(*final(fragments)) == build_items(*old(fragments)),
{
    fragments.items.push(fragment).is_ok()
}

impl View for BuildFragments {
    type V = Seq<BuildFragment>;

    open spec fn view(&self) -> Seq<BuildFragment> {
        build_items(*self)
    }
}

impl Clone for BuildFragments {
    fn clone(&self) -> (r: Self)
        ensures
            r@ == self@,
    {
        let items = build_as_vec(self);
        let mut r = build_new();
        let mut i: usize = 0;
        while i < items.len()
            invariant
                i <= items.len(),
                items@.len() <= MAX_FRAGMENTS,
                r@ == items@.subrange(0, i as int),
            decreases items.len() - i,
        {
            let _ = build_push(&mut r, items[i].clone());
            assert(items@.subrange(0, i + 1) == items@.subrange(0, i as int).push(
                items@[i as int],
            ));
            i += 1;
        }
        assert(items@.subrange(0, items@.len() as int) == items@);
        r
    }
}

impl BuildFragments {
    /// The vector without fragments.
    pub fn new() -> (r: BuildFragments)
        ensures
            r@ == Seq::<BuildFragment>::empty(),
    {
        build_new()
    }

    /// The number of fragments.
    pub fn len(&self) -> (n: usize)
        ensures
            n == self@.len(),
            n <= MAX_FRAGMENTS,
    {
        build_as_vec(self).len()
    }

    /// The fragments in their order.
    pub fn iter(&self) -> (items: &Vec<BuildFragment>)
        ensures
            items@ == self@,
            items@.len() <= MAX_FRAGMENTS,
    {
        build_as_vec(self)
    }

    /// Appends a fragment, unless the vector is full.
    pub fn push(&mut self, fragment: BuildFragment) -> (r: Result<(), ConfinementError>)
        ensures
            match r {
                Ok(()) => old(self)@.len() < MAX_FRAGMENTS && final(self)@ == old(self)@.push(
                    fragment,
                ),
                Err(e) => old(self)@.len() == MAX_FRAGMENTS && final(self)@ == old(self)@ && e
                    == (ConfinementError::Oversize {
                    len: (MAX_FRAGMENTS + 1) as usize,
                    max_len: MAX_FRAGMENTS,
                }),
            },
    {
        let len = self.len();
        if build_push(self, fragment) {
            Ok(())
        } else {
            Err(ConfinementError::Oversize { len: len + 1, max_len: MAX_FRAGMENTS })
        }
    }
}

/// A version label: three numbers, and two sequences of fragments.
#[derive(Clone, Eq, PartialEq, Hash, Debug)]
pub struct SemVer {
    pub major: u16,
    pub minor: u16,
    pub patch: u16,
    pub pre: PreFragments,
    pub build: BuildFragments,
}

impl SemVer {
    /// Neither sequence of fragments holds more than 255 of them.
    pub open spec fn wf(&self) -> bool {
        self.pre@.len() <= MAX_FRAGMENTS && self.build@.len() <= MAX_FRAGMENTS
    }

    /// Appends a fragment to the pre-release part, unless it is full.
    pub fn push_pre(&mut self, fragment: PreFragment) -> (r: Result<(), ConfinementError>)
        ensures
            final(self).major == old(self).major,
            final(self).minor == old(self).minor,
            final(self).patch == old(self).patch,
            final(self).build == old(self).build,
            match r {
                Ok(()) => old(self).pre@.len() < MAX_FRAGMENTS && final(self).pre@ == old(
                    self,
                ).pre@.push(fragment),
                Err(e) => old(self).pre@.len() == MAX_FRAGMENTS && final(self).pre@ == old(
                    self,
                ).pre@ && e == (ConfinementError::Oversize {
                    len: (MAX_FRAGMENTS + 1) as usize,
                    max_len: MAX_FRAGMENTS,
                }),
            },
    {
        self.pre.push(fragment)
    }

    /// Appends a fragment to the build part, unless it is full.
    pub fn push_build(&mut self, fragment: BuildFragment) -> (r: Result<(), ConfinementError>)
        ensures
            final(self).major == old(self).major,
            final(self).minor == old(self).minor,
            final(self).patch == old(self).patch,
            final(self).pre == old(self).pre,
            match r {
                Ok(()) => old(self).build@.len() < MAX_FRAGMENTS && final(self).build@ == old(
                    self,
                ).build@.push(fragment),
                Err(e) => old(self).build@.len() == MAX_FRAGMENTS && final(self).build@ == old(
                    self,
                ).build@ && e == (ConfinementError::Oversize {
                    len: (MAX_FRAGMENTS + 1) as usize,
                    max_len: MAX_FRAGMENTS,
                }),
            },
    {
        self.build.push(fragment)
    }

    /// The version `major.minor.patch` without fragments.
    pub fn new(major: u16, minor: u16, patch: u16) -> (r: SemVer)
        ensures
            r.major == major,
            r.minor == minor,
            r.patch == patch,
            r.pre@.len() == 0,
            r.build@.len() == 0,
            r.wf(),
    {
        SemVer { major, minor, patch, pre: PreFragments::new(), build: BuildFragments::new() }
    }

    /// The textual form: the three numbers with dots between them; then,
    /// where there are build fragments, `-` and the fragments with dots
    /// between them; then, where there are pre-release fragments, `+` and
    /// those fragments with dots between them.
    pub open spec fn spec_text(&self) -> Seq<char> {
        decimal(self.major as nat) + "."@ + decimal(self.minor as nat) + "."@ + decimal(
            self.patch as nat,
        ) + (if self.build@.len() > 0 {
            "-"@ + build_text(self.build@, self.build@.len() as int)
        } else {
            Seq::empty()
        }) + (if self.pre@.len() > 0 {
            "+"@ + pre_text(self.pre@, self.pre@.len() as int)
        } else {
            Seq::empty()
        })
    }

    /// Renders the textual form.
    pub fn to_string(&self) -> (s: String)
        ensures
            s@ == self.spec_text(),
    {
        let build = self.build.iter();
        let pre = self.pre.iter();
        let mut out = String::new();
        push_decimal(&mut out, self.major as u128);
        out.append(".");
        push_decimal(&mut out, self.minor as u128);
        out.append(".");
        push_decimal(&mut out, self.patch as u128);
        if build.len() > 0 {
            out.append("-");
        }
        let ghost mid = out@;
        let mut i: usize = 0;
        while i < build.len()
            invariant
                i <= build.len(),
                out@ == mid + build_text(build@, i as int),
            decreases build.len() - i,
        {
            if i > 0 {
                out.append(".");
            }
            let text = build[i].to_string();
            out.append(text.as_str());
            assert(out@ =~= mid + build_text(build@, i + 1));
            i += 1;
        }
        if pre.len() > 0 {
            out.append("+");
        }
        let ghost mid = out@;
        let mut i: usize = 0;
        while i < pre.len()
            invariant
                i <= pre.len(),
                out@ == mid + pre_text(pre@, i as int),
            decreases pre.len() - i,
        {
            if i > 0 {
                out.append(".");
            }
            let text = pre[i].to_string();
            out.append(text.as_str());
            assert(out@ =~= mid + pre_text(pre@, i + 1));
            i += 1;
        }
        assert(out@ =~= self.spec_text());
        out
    }
}

} // verus!
