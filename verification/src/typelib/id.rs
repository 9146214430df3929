//! Identifiers of libraries, and the textual form of identifiers.

use vstd::prelude::*;
use vstd::string::*;
use crate::ast::id::{
    le_u16, name_bytes, push_all, push_le_u16, push_name, tagged_hash, tagged_sha256, SemId,
};
use crate::ast::ty::Ty;
use crate::ord_map::{keys_of, lemma_sorted_same_keys, strictly_sorted, Entry};
use crate::typelib::type_lib::type_ids;
use crate::util::lemma_lex_irreflexive;
use crate::ord_map::OrdMap;
use crate::typelib::type_lib::{Dependency, LibRef, TypeLib, MAX_DEPENDENCIES, MAX_TYPES};
use crate::util::LibName;

verus! {

/// The Base58 text of `payload`, as the `base58` crate encodes bytes.
pub uninterp spec fn base58_text(payload: Seq<u8>) -> Seq<char>;

/// A character of the Base58 alphabet: a digit but `0`, or a letter but
/// `I`, `O` and `l`.
pub open spec fn is_base58_char(c: char) -> bool {
    ||| ('1' <= c && c <= '9')
    ||| ('A' <= c && c <= 'Z' && c != 'I' && c != 'O')
    ||| ('a' <= c && c <= 'z' && c != 'l')
}

/// The human-readable part that the textual form of identifiers begins with.
pub const HRI: &'static str = "stl";

/// Formats `baid58::Baid58::with(hri, payload)` with the fill `:` and the
/// alignment `<`. As the crate documents and its `Display` shows, this
/// prints the human-readable part, the fill once, and the Base58 text of
/// the payload, whose characters are all of the Base58 alphabet. The crate
/// asserts that the human-readable part holds 8 bytes at most.
#[verifier::external_body]
fn baid58_string(hri: &'static str, payload: &[u8; 32]) -> (s: String)
    requires
        hri@.len() <= 8,
        is_ascii(hri),
    ensures
        s@ == hri@ + ":"@ + base58_text(payload@),
        forall|i: int| hri@.len() < i < s@.len() ==> is_base58_char(#[trigger] s@[i]),
{
    format!("{::<}", baid58::Baid58::with(hri, *payload))
}

/// The textual form of 32 bytes as an identifier: `stl:` and their Base58
/// text.
pub open spec fn id_text(bytes: Seq<u8>) -> Seq<char> {
    HRI@ + ":"@ + base58_text(bytes)
}

/// Renders 32 bytes as an identifier. The text reads as the same
/// identifier with and without the human-readable part: with that part put
/// in front where it is missing, both are the text itself.
pub fn id_string(bytes: &[u8; 32]) -> (s: String)
    ensures
        s@ == id_text(bytes@),
        prefixed_text(s@) == s@,
        prefixed_text(base58_text(bytes@)) == s@,
{
    proof {
        reveal_strlit("stl");
        reveal_strlit(":");
    }
    let s = baid58_string(HRI, bytes);
    proof {
        let text = base58_text(bytes@);
        assert(s@.subrange(4, s@.len() as int) =~= text);
        if text.len() >= 3 {
            assert(text[2] == s@[6]);
            assert(is_base58_char(s@[6]));
        }
    }
    s
}

/// Whether a text begins with the human-readable part of identifiers.
pub open spec fn has_hri(s: Seq<char>) -> bool {
    s.len() >= 3 && s[0] == 's' && s[1] == 't' && s[2] == 'l'
}

/// The text that stands for an identifier, with the human-readable part in
/// front: the text itself where it begins with that part, else `stl:` and
/// the text.
pub open spec fn prefixed_text(s: Seq<char>) -> Seq<char> {
    if has_hri(s) {
        s
    } else {
        HRI@ + ":"@ + s
    }
}

/// Puts the human-readable part in front of a text that lacks it, so that
/// an identifier can be read from it with or without that part.
pub fn prefixed(s: &str) -> (r: String)
    ensures
        r@ == prefixed_text(s@),
{
    let found = s.unicode_len() >= 3 && s.get_char(0) == 's' && s.get_char(1) == 't'
        && s.get_char(2) == 'l';
    if found {
        String::from_str(s)
    } else {
        let mut out = String::from_str(HRI);
        out.append(":");
        out.append(s);
        out
    }
}

impl SemId {
    /// The textual form of the identifier.
    pub open spec fn spec_text(&self) -> Seq<char> {
        id_text(self@)
    }

    /// Renders the textual form.
    pub fn to_string(&self) -> (s: String)
        ensures
            s@ == self.spec_text(),
            prefixed_text(s@) == s@,
            prefixed_text(base58_text(self@)) == s@,
    {
        id_string(&self.0)
    }
}

/// The identifier of a library: 32 bytes.
#[derive(Copy, Clone, Ord, PartialOrd, Eq, PartialEq, Hash, Debug)]
pub struct TypeLibId(pub [u8; 32]);

impl View for TypeLibId {
    type V = Seq<u8>;

    open spec fn view(&self) -> Seq<u8> {
        self.0@
    }
}

impl TypeLibId {
    /// The identifier that holds the given bytes.
    pub fn from_bytes(bytes: [u8; 32]) -> (r: TypeLibId)
        ensures
            r@ == bytes@,
    {
        TypeLibId(bytes)
    }

    /// The bytes of the identifier.
    pub fn as_slice(&self) -> (r: &[u8])
        ensures
            r@ == self@,
    {
        self.0.as_slice()
    }

    /// The textual form of the identifier.
    pub open spec fn spec_text(&self) -> Seq<char> {
        id_text(self@)
    }

    /// Renders the textual form.
    pub fn to_string(&self) -> (s: String)
        ensures
            s@ == self.spec_text(),
            prefixed_text(s@) == s@,
            prefixed_text(base58_text(self@)) == s@,
    {
        id_string(&self.0)
    }
}

/// The words that stand for `bytes`, as the `mnemonic` crate encodes bytes.
pub uninterp spec fn mnemonic_text(bytes: Seq<u8>) -> Seq<char>;

/// Calls `mnemonic::to_string`. The contract names what it returns: the
/// words that the crate's word list gives for the bytes, with the crate's
/// separators between them, which is a function of the bytes alone.
#[verifier::external_body]
fn mnemonic_string(bytes: &[u8]) -> (s: String)
    ensures
        s@ == mnemonic_text(bytes@),
{
    mnemonic::to_string(bytes)
}

/// The words that tell an identifier of 32 bytes apart at a glance: those
/// of its four bytes from position 14 on.
pub open spec fn id_mnemonic(bytes: Seq<u8>) -> Seq<char> {
    mnemonic_text(bytes.subrange(14, 18))
}

/// Renders the words of an identifier.
pub fn id_mnemonic_string(bytes: &[u8; 32]) -> (s: String)
    ensures
        s@ == id_mnemonic(bytes@),
{
    let mut part: Vec<u8> = Vec::new();
    part.push(bytes[14]);
    part.push(bytes[15]);
    part.push(bytes[16]);
    part.push(bytes[17]);
    assert(part@ =~= bytes@.subrange(14, 18));
    mnemonic_string(part.as_slice())
}

/// A uniform resource name of a library or of a type.
#[derive(Copy, Clone, Ord, PartialOrd, Eq, PartialEq, Hash, Debug)]
pub enum Urn {
    Lib(TypeLibId),
    Type(SemId),
}

impl Urn {
    /// The textual form: `urn:sten:lib:` and the identifier of the library,
    /// or `urn:sten:id:` and the identifier of the type.
    pub open spec fn spec_text(&self) -> Seq<char> {
        match self {
            Urn::Lib(id) => "urn:sten:lib:"@ + id.spec_text(),
            Urn::Type(id) => "urn:sten:id:"@ + id.spec_text(),
        }
    }

    /// The alternate textual form: the textual form, `#`, and the words of
    /// the identifier.
    pub open spec fn spec_alt_text(&self) -> Seq<char> {
        match self {
            Urn::Lib(id) => self.spec_text() + "#"@ + id_mnemonic(id@),
            Urn::Type(id) => self.spec_text() + "#"@ + id_mnemonic(id@),
        }
    }

    /// Renders the textual form.
    pub fn to_string(&self) -> (s: String)
        ensures
            s@ == self.spec_text(),
    {
        match self {
            Urn::Lib(id) => {
                let mut out = String::from_str("urn:sten:lib:");
                let text = id.to_string();
                out.append(text.as_str());
                out
            },
            Urn::Type(id) => {
                let mut out = String::from_str("urn:sten:id:");
                let text = id.to_string();
                out.append(text.as_str());
                out
            },
        }
    }

    /// Renders the alternate textual form.
    pub fn to_alt_string(&self) -> (s: String)
        ensures
            s@ == self.spec_alt_text(),
    {
        let mut out = self.to_string();
        out.append("#");
        let words = match self {
            Urn::Lib(id) => id_mnemonic_string(&id.0),
            Urn::Type(id) => id_mnemonic_string(&id.0),
        };
        out.append(words.as_str());
        out
    }
}

/// The identifiers of the first `n` dependencies, in the order of their
/// aliases.
pub open spec fn dep_ids_bytes(deps: Seq<Entry<Dependency>>, n: int) -> Seq<u8>
    decreases n,
{
    if n <= 0 {
        Seq::empty()
    } else {
        dep_ids_bytes(deps, n - 1) + deps[n - 1].value.id@
    }
}

/// The identifiers of the first `n` types, each under its name, in the order
/// of the names.
pub open spec fn type_ids_bytes(types: Seq<Entry<Ty<LibRef>>>, n: int) -> Seq<u8>
    decreases n,
{
    if n <= 0 {
        Seq::empty()
    } else {
        type_ids_bytes(types, n - 1) + types[n - 1].value.spec_id(Some(types[n - 1].key@))
    }
}

/// The bytes that a library commits to: its name behind its length, the
/// number of its dependencies in one byte and their identifiers, the number
/// of its types in two bytes and their identifiers.
pub open spec fn lib_commitment(
    name: Seq<char>,
    deps: Seq<Entry<Dependency>>,
    types: Seq<Entry<Ty<LibRef>>>,
) -> Seq<u8> {
    name_bytes(name) + seq![deps.len() as u8] + dep_ids_bytes(deps, deps.len() as int) + le_u16(
        types.len() as u16,
    ) + type_ids_bytes(types, types.len() as int)
}

impl TypeLib {
    /// The identifier of the library: the tagged hash of what it commits to.
    pub open spec fn spec_id(&self) -> Seq<u8> {
        tagged_hash(lib_commitment(self.spec_name(), self.spec_dependencies(), self.spec_types()))
    }

    /// Computes the identifier of the library.
    pub fn id(&self) -> (r: TypeLibId)
        ensures
            r@ == self.spec_id(),
    {
        lib_id(self.name(), self.dependencies(), self.types())
    }
}

/// Computes the identifier of the library that the name, the dependencies
/// and the types make.
pub fn lib_id(name: &LibName, deps: &OrdMap<Dependency>, types: &OrdMap<Ty<LibRef>>) -> (r:
    TypeLibId)
    requires
        deps@.len() <= MAX_DEPENDENCIES,
        types@.len() <= MAX_TYPES,
    ensures
        r@ == tagged_hash(lib_commitment(name@, deps@, types@)),
{
    let mut buf: Vec<u8> = Vec::new();
    push_name(&mut buf, name);
    buf.push(deps.len() as u8);
    let ghost head = buf@;
    let mut i: usize = 0;
    while i < deps.len()
        invariant
            i <= deps@.len(),
            buf@ == head + dep_ids_bytes(deps@, i as int),
        decreases deps@.len() - i,
    {
        push_all(&mut buf, deps.entry(i).value.id.as_slice());
        assert(buf@ =~= head + dep_ids_bytes(deps@, i + 1));
        i += 1;
    }
    push_le_u16(&mut buf, types.len() as u16);
    let ghost head = buf@;
    let mut i: usize = 0;
    while i < types.len()
        invariant
            i <= types@.len(),
            buf@ == head + type_ids_bytes(types@, i as int),
        decreases types@.len() - i,
    {
        let entry = types.entry(i);
        let id = entry.value.id(Some(&entry.key));
        push_all(&mut buf, id.as_slice());
        assert(buf@ =~= head + type_ids_bytes(types@, i + 1));
        i += 1;
    }
    assert(buf@ =~= lib_commitment(name@, deps@, types@));
    TypeLibId(tagged_sha256(&buf))
}

/// The identifier of each dependency under its alias.
pub open spec fn dependency_ids(deps: Seq<Entry<Dependency>>) -> Map<Seq<char>, Seq<u8>> {
    Map::new(
        |alias: Seq<char>| keys_of(deps).contains(alias),
        |alias: Seq<char>| deps[choose|i: int| 0 <= i < deps.len() && deps[i].key@ == alias].value.id@,
    )
}

/// In entries that stand in the order of their names, a name stands at one
/// position only.
pub proof fn lemma_sorted_position<V>(entries: Seq<Entry<V>>, i: int)
    requires
        strictly_sorted(keys_of(entries)),
        0 <= i < entries.len(),
    ensures
        keys_of(entries).contains(entries[i].key@),
        (choose|c: int| 0 <= c < entries.len() && entries[c].key@ == entries[i].key@) == i,
{
    let keys = keys_of(entries);
    assert(keys[i] == entries[i].key@);
    let c = choose|c: int| 0 <= c < entries.len() && entries[c].key@ == entries[i].key@;
    if c != i {
        let lo = if c < i {
            c
        } else {
            i
        };
        let hi = if c < i {
            i
        } else {
            c
        };
        assert(keys[c] == entries[c].key@);
        assert(crate::util::lex_lt(keys[lo], keys[hi]));
        lemma_lex_irreflexive(entries[i].key@);
    }
}

/// Two libraries with the same name, the same identifiers of dependencies
/// under the same aliases and the same identifiers of types under the same
/// names have the same identifier, in whatever order they were filled.
pub proof fn law_lib_id_reproducible(a: TypeLib, b: TypeLib)
    requires
        a.wf(),
        b.wf(),
        a.spec_name() == b.spec_name(),
        dependency_ids(a.spec_dependencies()) == dependency_ids(b.spec_dependencies()),
        type_ids(a.spec_types()) == type_ids(b.spec_types()),
    ensures
        a.spec_id() == b.spec_id(),
{
    let (da, db) = (a.spec_dependencies(), b.spec_dependencies());
    let (ta, tb) = (a.spec_types(), b.spec_types());
    assert forall|k: Seq<char>| keys_of(da).contains(k) <==> keys_of(db).contains(k) by {
        assert(dependency_ids(da).dom().contains(k) == keys_of(da).contains(k));
        assert(dependency_ids(db).dom().contains(k) == keys_of(db).contains(k));
    }
    assert forall|k: Seq<char>| keys_of(ta).contains(k) <==> keys_of(tb).contains(k) by {
        assert(type_ids(ta).dom().contains(k) == keys_of(ta).contains(k));
        assert(type_ids(tb).dom().contains(k) == keys_of(tb).contains(k));
    }
    lemma_sorted_same_keys(keys_of(da), keys_of(db));
    lemma_sorted_same_keys(keys_of(ta), keys_of(tb));
    assert(da.len() == keys_of(da).len() && db.len() == keys_of(db).len());
    assert(ta.len() == keys_of(ta).len() && tb.len() == keys_of(tb).len());
    lemma_same_dep_bytes(da, db, da.len() as int);
    lemma_same_type_bytes(ta, tb, ta.len() as int);
}

proof fn lemma_same_dep_bytes(a: Seq<Entry<Dependency>>, b: Seq<Entry<Dependency>>, n: int)
    requires
        strictly_sorted(keys_of(a)),
        strictly_sorted(keys_of(b)),
        keys_of(a) == keys_of(b),
        dependency_ids(a) == dependency_ids(b),
        0 <= n <= a.len(),
    ensures
        dep_ids_bytes(a, n) == dep_ids_bytes(b, n),
    decreases n,
{
    if n > 0 {
        lemma_same_dep_bytes(a, b, n - 1);
        assert(a.len() == keys_of(a).len() && b.len() == keys_of(b).len());
        let key = a[n - 1].key@;
        assert(keys_of(a)[n - 1] == key && keys_of(b)[n - 1] == b[n - 1].key@);
        lemma_sorted_position(a, n - 1);
        lemma_sorted_position(b, n - 1);
        assert(dependency_ids(a)[key] == a[n - 1].value.id@);
        assert(dependency_ids(b)[key] == b[n - 1].value.id@);
    }
}

proof fn lemma_same_type_bytes(a: Seq<Entry<Ty<LibRef>>>, b: Seq<Entry<Ty<LibRef>>>, n: int)
    requires
        strictly_sorted(keys_of(a)),
        strictly_sorted(keys_of(b)),
        keys_of(a) == keys_of(b),
        type_ids(a) == type_ids(b),
        0 <= n <= a.len(),
    ensures
        type_ids_bytes(a, n) == type_ids_bytes(b, n),
    decreases n,
{
    if n > 0 {
        lemma_same_type_bytes(a, b, n - 1);
        assert(a.len() == keys_of(a).len() && b.len() == keys_of(b).len());
        let key = a[n - 1].key@;
        assert(keys_of(a)[n - 1] == key && keys_of(b)[n - 1] == b[n - 1].key@);
        lemma_sorted_position(a, n - 1);
        lemma_sorted_position(b, n - 1);
        assert(type_ids(a)[key] == a[n - 1].value.spec_id(Some(key)));
        assert(type_ids(b)[key] == b[n - 1].value.spec_id(Some(key)));
    }
}

} // verus!
