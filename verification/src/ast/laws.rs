//! What holds of semantic identifiers: they are functions of the type and
//! the name, and they commit to names and to ordinals.

use vstd::prelude::*;
use crate::ast::id::{
    entries_bytes, entry_bytes, name_bytes, opt_name_bytes, ref_ids, sha256_collides,
    sha256_digest, tag_bytes, tagged, tagged_bytes, SemId, TypeRef,
};
use crate::ast::ty::{position_of_ord, Tag, Ty};
use crate::util::{is_ident_char, valid_ident};

verus! {

/// Two names that differ have bytes that differ.
pub proof fn lemma_name_bytes_differ(a: Seq<char>, b: Seq<char>)
    requires
        valid_ident(a),
        valid_ident(b),
        a != b,
    ensures
        name_bytes(a) != name_bytes(b),
        a.len() == b.len() ==> exists|k: int|
            0 <= k < a.len() && #[trigger] name_bytes(a)[1 + k] != name_bytes(b)[1 + k],
{
    if a.len() == b.len() {
        assert(!(a =~= b));
        let k = choose|k: int| 0 <= k < a.len() && a[k] != b[k];
        assert(is_ident_char(a[k]) && is_ident_char(b[k]));
        assert(name_bytes(a)[1 + k] == a[k] as u8);
        assert(name_bytes(b)[1 + k] == b[k] as u8);
        assert(name_bytes(a)[1 + k] != name_bytes(b)[1 + k]);
    } else {
        assert(name_bytes(a).len() != name_bytes(b).len());
    }
}

/// What is hashed differs where the contents differ.
pub proof fn lemma_tagged_differ(a: Seq<u8>, b: Seq<u8>)
    requires
        a != b,
    ensures
        tagged(a) != tagged(b),
{
    let head = sha256_digest(tag_bytes()) + sha256_digest(tag_bytes());
    if tagged(a) == tagged(b) {
        assert(tagged(a).subrange(head.len() as int, tagged(a).len() as int) =~= a);
        assert(tagged(b).subrange(head.len() as int, tagged(b).len() as int) =~= b);
    }
}

/// The identifier of a type is a function of the type and of the name: what
/// is computed for the same type under the same name is the same.
pub proof fn law_id_deterministic<R: TypeRef>(
    ty: Ty<R>,
    name: Option<Seq<char>>,
    first: SemId,
    second: SemId,
)
    requires
        first@ == ty.spec_id(name),
        second@ == ty.spec_id(name),
    ensures
        first@ == second@,
{
}

/// A type commits to its name: under two different names it commits to
/// different bytes, and it has the same identifier under both only where
/// SHA-256 gives two different inputs the same digest.
pub proof fn law_name_sensitivity<R: TypeRef>(ty: Ty<R>, a: Seq<char>, b: Seq<char>)
    requires
        valid_ident(a),
        valid_ident(b),
        a != b,
    ensures
        ty.commitment(Some(a)) != ty.commitment(Some(b)),
        ty.spec_id(Some(a)) == ty.spec_id(Some(b)) ==> sha256_collides(
            tagged(ty.commitment(Some(a))),
            tagged(ty.commitment(Some(b))),
        ),
{
    let ids = ref_ids(ty.refs());
    let ca = ty.commitment(Some(a));
    let cb = ty.commitment(Some(b));
    lemma_name_bytes_differ(a, b);
    if a.len() == b.len() {
        let k = choose|k: int|
            0 <= k < a.len() && #[trigger] name_bytes(a)[1 + k] != name_bytes(b)[1 + k];
        assert(ca[2 + k] == name_bytes(a)[1 + k]);
        assert(cb[2 + k] == name_bytes(b)[1 + k]);
    } else {
        assert(ca.len() != cb.len());
    }
    lemma_tagged_differ(ca, cb);
}

/// A type with a name and the same type without one commit to different
/// bytes, and they have the same identifier only where SHA-256 gives two
/// different inputs the same digest.
pub proof fn law_name_presence<R: TypeRef>(ty: Ty<R>, name: Seq<char>)
    ensures
        ty.commitment(None) != ty.commitment(Some(name)),
        ty.spec_id(None) == ty.spec_id(Some(name)) ==> sha256_collides(
            tagged(ty.commitment(None)),
            tagged(ty.commitment(Some(name))),
        ),
{
    let without = ty.commitment(None);
    let with = ty.commitment(Some(name));
    assert(with.len() == without.len() + 1 + name.len());
    lemma_tagged_differ(without, with);
}

/// The name and the identifier of the item with the ordinal `ord`, if there
/// is one.
pub open spec fn item_at(tags: Seq<Tag>, ids: Seq<Seq<u8>>, ord: u8) -> Option<
    (Option<Seq<char>>, Seq<u8>),
> {
    match position_of_ord(tags, ord, 0) {
        Some(p) => Some(
            (
                tags[p].name,
                if p < ids.len() {
                    ids[p]
                } else {
                    Seq::empty()
                },
            ),
        ),
        None => None,
    }
}

/// The items of `b` are those of `a`, but the items with the ordinals `x`
/// and `y` have exchanged their ordinals.
pub open spec fn ords_exchanged(
    a_tags: Seq<Tag>,
    a_ids: Seq<Seq<u8>>,
    b_tags: Seq<Tag>,
    b_ids: Seq<Seq<u8>>,
    x: u8,
    y: u8,
) -> bool {
    &&& a_tags.len() == b_tags.len()
    &&& item_at(a_tags, a_ids, x) is Some
    &&& item_at(a_tags, a_ids, y) is Some
    &&& item_at(b_tags, b_ids, x) == item_at(a_tags, a_ids, y)
    &&& item_at(b_tags, b_ids, y) == item_at(a_tags, a_ids, x)
    &&& forall|o: u8| o != x && o != y ==> item_at(b_tags, b_ids, o) == item_at(a_tags, a_ids, o)
}

/// An item whose name, if it has one, is valid and whose identifier holds
/// 32 bytes.
pub open spec fn item_valid(item: (Option<Seq<char>>, Seq<u8>)) -> bool {
    (item.0 matches Some(n) ==> valid_ident(n)) && item.1.len() == 32
}

/// The entry of an item: its ordinal, its name, its identifier.
pub open spec fn item_bytes(ord: u8, item: (Option<Seq<char>>, Seq<u8>)) -> Seq<u8> {
    seq![ord] + opt_name_bytes(item.0) + item.1
}

/// What follows the same bytes is the same where the whole is the same.
pub proof fn lemma_cancel_prefix(head: Seq<u8>, a: Seq<u8>, b: Seq<u8>)
    requires
        head + a == head + b,
    ensures
        a == b,
{
    assert((head + a).subrange(head.len() as int, (head + a).len() as int) =~= a);
    assert((head + b).subrange(head.len() as int, (head + b).len() as int) =~= b);
}

/// Names can be told apart whatever follows them.
pub proof fn lemma_name_bytes_injective(
    first: Seq<char>,
    first_rest: Seq<u8>,
    second: Seq<char>,
    second_rest: Seq<u8>,
)
    requires
        valid_ident(first),
        valid_ident(second),
        name_bytes(first) + first_rest == name_bytes(second) + second_rest,
    ensures
        first == second,
        first_rest == second_rest,
{
    let s1 = name_bytes(first) + first_rest;
    let s2 = name_bytes(second) + second_rest;
    assert(s1[0] == first.len() as u8);
    assert(s2[0] == second.len() as u8);
    assert(first.len() == second.len());
    assert forall|k: int| 0 <= k < first.len() implies first[k] == second[k] by {
        assert(s1[1 + k] == first[k] as u8);
        assert(s2[1 + k] == second[k] as u8);
        assert(is_ident_char(first[k]) && is_ident_char(second[k]));
    }
    assert(first =~= second);
    lemma_cancel_prefix(name_bytes(first), first_rest, second_rest);
}

/// Names that may be absent can be told apart whatever follows them.
pub proof fn lemma_opt_name_bytes_injective(
    first: Option<Seq<char>>,
    first_rest: Seq<u8>,
    second: Option<Seq<char>>,
    second_rest: Seq<u8>,
)
    requires
        first matches Some(n) ==> valid_ident(n),
        second matches Some(n) ==> valid_ident(n),
        opt_name_bytes(first) + first_rest == opt_name_bytes(second) + second_rest,
    ensures
        first == second,
        first_rest == second_rest,
{
    let s1 = opt_name_bytes(first) + first_rest;
    let s2 = opt_name_bytes(second) + second_rest;
    assert(s1[0] == opt_name_bytes(first)[0]);
    assert(s2[0] == opt_name_bytes(second)[0]);
    match (first, second) {
        (Some(n1), Some(n2)) => {
            assert(s1 =~= seq![1u8] + (name_bytes(n1) + first_rest));
            assert(s2 =~= seq![1u8] + (name_bytes(n2) + second_rest));
            lemma_cancel_prefix(seq![1u8], name_bytes(n1) + first_rest, name_bytes(n2) + second_rest);
            lemma_name_bytes_injective(n1, first_rest, n2, second_rest);
        },
        (None, None) => {
            lemma_cancel_prefix(seq![0u8], first_rest, second_rest);
        },
        _ => {},
    }
}

/// Entries can be told apart whatever follows them: where two entries with
/// what follows them are the same bytes, the items are the same.
pub proof fn lemma_item_bytes_injective(
    ord: u8,
    first: (Option<Seq<char>>, Seq<u8>),
    first_rest: Seq<u8>,
    second: (Option<Seq<char>>, Seq<u8>),
    second_rest: Seq<u8>,
)
    requires
        item_valid(first),
        item_valid(second),
        item_bytes(ord, first) + first_rest == item_bytes(ord, second) + second_rest,
    ensures
        first == second,
{
    let t1 = first.1 + first_rest;
    let t2 = second.1 + second_rest;
    assert(item_bytes(ord, first) + first_rest =~= seq![ord] + (opt_name_bytes(first.0) + t1));
    assert(item_bytes(ord, second) + second_rest =~= seq![ord] + (opt_name_bytes(second.0) + t2));
    lemma_cancel_prefix(seq![ord], opt_name_bytes(first.0) + t1, opt_name_bytes(second.0) + t2);
    lemma_opt_name_bytes_injective(first.0, t1, second.0, t2);
    assert(t1.subrange(0, 32) =~= first.1);
    assert(t2.subrange(0, 32) =~= second.1);
}

/// The entries of the items with ordinals from `from` up to `upto`.
pub open spec fn entries_between(tags: Seq<Tag>, ids: Seq<Seq<u8>>, from: int, upto: int) -> Seq<
    u8,
>
    decreases upto - from,
{
    if upto <= from {
        Seq::empty()
    } else {
        entries_between(tags, ids, from, upto - 1) + entry_bytes(tags, ids, (upto - 1) as u8)
    }
}

/// The entries below `upto` are those below `from` and those between the
/// two.
pub proof fn lemma_entries_split(tags: Seq<Tag>, ids: Seq<Seq<u8>>, from: int, upto: int)
    requires
        0 <= from <= upto,
    ensures
        entries_bytes(tags, ids, upto) == entries_bytes(tags, ids, from) + entries_between(
            tags,
            ids,
            from,
            upto,
        ),
    decreases upto - from,
{
    if upto > from {
        lemma_entries_split(tags, ids, from, upto - 1);
        assert(entries_bytes(tags, ids, upto) =~= entries_bytes(tags, ids, from)
            + entries_between(tags, ids, from, upto));
    } else {
        assert(entries_bytes(tags, ids, upto) =~= entries_bytes(tags, ids, from)
            + entries_between(tags, ids, from, upto));
    }
}

/// Below the smaller of the two ordinals, the entries are the same.
proof fn lemma_entries_same(
    a_tags: Seq<Tag>,
    a_ids: Seq<Seq<u8>>,
    b_tags: Seq<Tag>,
    b_ids: Seq<Seq<u8>>,
    x: u8,
    y: u8,
    upto: int,
)
    requires
        ords_exchanged(a_tags, a_ids, b_tags, b_ids, x, y),
        0 <= upto <= x,
        upto <= y,
    ensures
        entries_bytes(a_tags, a_ids, upto) == entries_bytes(b_tags, b_ids, upto),
    decreases upto,
{
    if upto > 0 {
        lemma_entries_same(a_tags, a_ids, b_tags, b_ids, x, y, upto - 1);
        let o = (upto - 1) as u8;
        assert(item_at(b_tags, b_ids, o) == item_at(a_tags, a_ids, o));
    }
}

/// Items that exchange their ordinals change the bytes that the items commit
/// to, unless the two items have the same name and the same identifier.
pub proof fn lemma_exchange_differs(
    a_tags: Seq<Tag>,
    a_ids: Seq<Seq<u8>>,
    b_tags: Seq<Tag>,
    b_ids: Seq<Seq<u8>>,
    x: u8,
    y: u8,
)
    requires
        ords_exchanged(a_tags, a_ids, b_tags, b_ids, x, y),
        item_at(a_tags, a_ids, x) != item_at(a_tags, a_ids, y),
        item_valid(item_at(a_tags, a_ids, x)->0),
        item_valid(item_at(a_tags, a_ids, y)->0),
    ensures
        tagged_bytes(a_tags, a_ids) != tagged_bytes(b_tags, b_ids),
{
    let m: u8 = if x < y {
        x
    } else {
        y
    };
    let in_a = item_at(a_tags, a_ids, m)->0;
    let in_b = item_at(b_tags, b_ids, m)->0;
    lemma_entries_same(a_tags, a_ids, b_tags, b_ids, x, y, m as int);
    lemma_entries_split(a_tags, a_ids, m as int + 1, 256);
    lemma_entries_split(b_tags, b_ids, m as int + 1, 256);
    let head = entries_bytes(a_tags, a_ids, m as int);
    let rest_a = entries_between(a_tags, a_ids, m as int + 1, 256);
    let rest_b = entries_between(b_tags, b_ids, m as int + 1, 256);
    let all_a = entries_bytes(a_tags, a_ids, 256);
    let all_b = entries_bytes(b_tags, b_ids, 256);
    assert(entry_bytes(a_tags, a_ids, m) == item_bytes(m, in_a));
    assert(entry_bytes(b_tags, b_ids, m) == item_bytes(m, in_b));
    assert(all_a =~= head + (item_bytes(m, in_a) + rest_a));
    assert(all_b =~= head + (item_bytes(m, in_b) + rest_b));
    if tagged_bytes(a_tags, a_ids) == tagged_bytes(b_tags, b_ids) {
        lemma_cancel_prefix(seq![(a_tags.len() % 256) as u8], all_a, all_b);
        lemma_cancel_prefix(head, item_bytes(m, in_a) + rest_a, item_bytes(m, in_b) + rest_b);
        lemma_item_bytes_injective(m, in_a, rest_a, in_b, rest_b);
    }
}

/// A structure or a union commits to the ordinals of its items: where two
/// items exchange their ordinals, the type commits to different bytes, and
/// it keeps its identifier only where SHA-256 gives two different inputs the
/// same digest. Two items with the same name and the same identifier are left
/// out: exchanging their ordinals changes nothing.
pub proof fn law_ordinal_sensitivity<R: TypeRef>(
    a: Ty<R>,
    b: Ty<R>,
    x: u8,
    y: u8,
    name: Option<Seq<char>>,
)
    requires
        (a is Struct && b is Struct) || (a is Union && b is Union),
        ords_exchanged(a.tags(), ref_ids(a.refs()), b.tags(), ref_ids(b.refs()), x, y),
        item_at(a.tags(), ref_ids(a.refs()), x) != item_at(a.tags(), ref_ids(a.refs()), y),
        item_valid(item_at(a.tags(), ref_ids(a.refs()), x)->0),
        item_valid(item_at(a.tags(), ref_ids(a.refs()), y)->0),
    ensures
        a.commitment(name) != b.commitment(name),
        a.spec_id(name) == b.spec_id(name) ==> sha256_collides(
            tagged(a.commitment(name)),
            tagged(b.commitment(name)),
        ),
{
    let ids_a = ref_ids(a.refs());
    let ids_b = ref_ids(b.refs());
    lemma_exchange_differs(a.tags(), ids_a, b.tags(), ids_b, x, y);
    let head = seq![a.spec_cls()] + (match name {
        Some(n) => name_bytes(n),
        None => Seq::empty(),
    });
    let ca = a.commitment(name);
    let cb = b.commitment(name);
    assert(a.body_bytes(ids_a) == tagged_bytes(a.tags(), ids_a));
    assert(b.body_bytes(ids_b) == tagged_bytes(b.tags(), ids_b));
    if ca == cb {
        lemma_cancel_prefix(head, a.body_bytes(ids_a), b.body_bytes(ids_b));
    }
    lemma_tagged_differ(ca, cb);
}

} // verus!
