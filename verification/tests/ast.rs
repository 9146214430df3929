use sha2::{Digest, Sha256};
use strict_types::ast::id::{SemId, TypeRef, LIB_ID_TAG};
use strict_types::ast::path::{Path, Step};
use strict_types::ast::sten::{desc_sem_id, StenType};
use strict_types::ast::ty::{Field, KeyTy, Ty, TyError, Variant};
use strict_types::schema::PrimitiveType;
use strict_types::util::{ConfinementError, Ident, Sizing};

fn tagged(content: &[u8]) -> [u8; 32] {
    let tag = Sha256::digest(LIB_ID_TAG.as_bytes());
    let mut hasher = Sha256::new();
    hasher.update(tag);
    hasher.update(tag);
    hasher.update(content);
    hasher.finalize().into()
}

fn name(s: &str) -> Ident {
    Ident::from_str(s)
}

fn prim(p: PrimitiveType) -> StenType {
    StenType::Inline(Box::new(Ty::Primitive(p)))
}

fn foo(a_ord: u8, b_ord: u8) -> Ty<KeyTy> {
    let mut fields = vec![
        Field::named(name("a"), a_ord, KeyTy::Primitive(PrimitiveType::U8)),
        Field::named(name("b"), b_ord, KeyTy::Primitive(PrimitiveType::U16)),
    ];
    fields.sort_by_key(|f| f.ord);
    Ty::composition(fields).unwrap()
}

#[test]
fn tag_is_32_bytes() {
    assert_eq!(LIB_ID_TAG.len(), 32);
}

#[test]
fn primitive_id_is_tagged_hash_of_class_and_code() {
    let ty: Ty<KeyTy> = Ty::Primitive(PrimitiveType::U8);
    assert_eq!(ty.id(None), SemId(tagged(&[0, 0x00])));
    let ty: Ty<KeyTy> = Ty::Primitive(PrimitiveType::Bytes);
    assert_eq!(ty.id(None), SemId(tagged(&[0, 0xff])));
    assert_eq!(KeyTy::Primitive(PrimitiveType::I32).id(), SemId(tagged(&[0, 0x12])));
    // the hash is not the content handed back
    assert_ne!(&ty.id(None).0[..2], &[0u8, 0xff][..]);
}

#[test]
fn named_id_commits_to_length_prefixed_name() {
    let ty: Ty<KeyTy> = Ty::Primitive(PrimitiveType::U16);
    let id = ty.id(Some(&name("Abc")));
    assert_eq!(id, SemId(tagged(&[0, 3, b'A', b'b', b'c', 0x01])));
}

#[test]
fn list_id_commits_to_item_id_and_sizing() {
    let item = tagged(&[0, 0x00]);
    let ty: Ty<KeyTy> = Ty::List(KeyTy::Primitive(PrimitiveType::U8), Sizing::new(1, 0x1234));
    let mut content = vec![5u8];
    content.extend(item);
    content.extend([1, 0, 0x34, 0x12]);
    assert_eq!(ty.id(None), SemId(tagged(&content)));
    // a key type of bytes is a list of U8
    assert_eq!(KeyTy::Bytes(Sizing::new(1, 0x1234)).id(), SemId(tagged(&content)));
}

#[test]
fn array_set_map_and_unicode_ids() {
    let item = tagged(&[0, 0x03]);
    let ty: Ty<KeyTy> = Ty::Array(KeyTy::Primitive(PrimitiveType::U64), 0x0102);
    let mut content = vec![4u8];
    content.extend(item);
    content.extend([0x02, 0x01]);
    assert_eq!(ty.id(None), SemId(tagged(&content)));

    let ty: Ty<KeyTy> = Ty::SetOf(KeyTy::Primitive(PrimitiveType::U64), Sizing::new(0, 255));
    let mut content = vec![6u8];
    content.extend(item);
    content.extend([0, 0, 255, 0]);
    assert_eq!(ty.id(None), SemId(tagged(&content)));

    let key = KeyTy::Array(32);
    let mut key_content = vec![4u8];
    key_content.extend(tagged(&[0, 0]));
    key_content.extend([32, 0]);
    assert_eq!(key.id(), SemId(tagged(&key_content)));
    let ty: Ty<KeyTy> = Ty::MapOf(key, KeyTy::Primitive(PrimitiveType::U64), Sizing::new(0, 255));
    let mut content = vec![7u8];
    content.extend(tagged(&key_content));
    content.extend(item);
    content.extend([0, 0, 255, 0]);
    assert_eq!(ty.id(None), SemId(tagged(&content)));

    let ty: Ty<KeyTy> = Ty::Unicode(Sizing::new(2, 3));
    assert_eq!(ty.id(None), SemId(tagged(&[8, 2, 0, 3, 0])));
    assert_eq!(KeyTy::UnicodeStr(Sizing::new(2, 3)).id(), SemId(tagged(&[8, 2, 0, 3, 0])));
    assert_eq!(KeyTy::AsciiStr(Sizing::new(2, 3)).id(), SemId(tagged(&[9, 2, 0, 3, 0])));
    assert_eq!(KeyTy::AsciiStr(Sizing::new(1, 32)).to_string(), "Ascii ^ 1..0x20");
}

#[test]
fn enum_id_commits_to_variants_by_ordinal() {
    let ty: Ty<KeyTy> = Ty::enumerate(vec![
        Variant::named(name("yes"), 1),
        Variant::unnamed(0),
    ])
    .unwrap();
    // the number of variants, then ordinal 0 without a name, then ordinal 1 with its name
    let content = [1u8, 2, 0, 0, 1, 1, 3, b'y', b'e', b's'];
    assert_eq!(ty.id(None), SemId(tagged(&content)));
}

#[test]
fn struct_id_commits_to_fields_by_ordinal() {
    let ty = foo(0, 1);
    let mut content = vec![3u8, 3, b'F', b'o', b'o', 2];
    content.extend([0, 1, 1, b'a']);
    content.extend(tagged(&[0, 0x00]));
    content.extend([1, 1, 1, b'b']);
    content.extend(tagged(&[0, 0x01]));
    assert_eq!(ty.id(Some(&name("Foo"))), SemId(tagged(&content)));
}

#[test]
fn id_is_deterministic() {
    let ty = foo(0, 1);
    assert_eq!(ty.id(None), ty.id(None));
    assert_eq!(ty.id(Some(&name("Foo"))), ty.id(Some(&name("Foo"))));
    assert_eq!(ty.id(None), foo(0, 1).id(None));
}

#[test]
fn id_depends_on_name() {
    let ty = foo(0, 1);
    assert_ne!(ty.id(Some(&name("A"))), ty.id(Some(&name("B"))));
    assert_ne!(ty.id(None), ty.id(Some(&name("A"))));
}

#[test]
fn id_depends_on_ordinals() {
    assert_ne!(foo(0, 1).id(None), foo(1, 0).id(None));
    assert_ne!(foo(0, 1).id(None), foo(0, 2).id(None));
    let u1: Ty<KeyTy> = Ty::union(vec![
        Field::named(name("a"), 0, KeyTy::Primitive(PrimitiveType::U8)),
        Field::named(name("b"), 1, KeyTy::Primitive(PrimitiveType::U16)),
    ])
    .unwrap();
    let u2: Ty<KeyTy> = Ty::union(vec![
        Field::named(name("a"), 1, KeyTy::Primitive(PrimitiveType::U8)),
        Field::named(name("b"), 0, KeyTy::Primitive(PrimitiveType::U16)),
    ])
    .unwrap();
    assert_ne!(u1.id(None), u2.id(None));
    // the order in which a union lists its alternatives does not matter
    let u3: Ty<KeyTy> = Ty::union(vec![
        Field::named(name("b"), 1, KeyTy::Primitive(PrimitiveType::U16)),
        Field::named(name("a"), 0, KeyTy::Primitive(PrimitiveType::U8)),
    ])
    .unwrap();
    assert_eq!(u1.id(None), u3.id(None));
}

#[test]
fn constructors_enforce_cardinality() {
    let none: Result<Ty<KeyTy>, TyError> = Ty::enumerate(vec![]);
    assert_eq!(
        none,
        Err(TyError::Confinement(ConfinementError::Undersize { len: 0, min_len: 1 }))
    );
    let all: Vec<Variant> = (0..=255u8).map(Variant::unnamed).collect();
    let full: Result<Ty<KeyTy>, TyError> = Ty::enumerate(all);
    assert!(full.is_ok());
    let fields: Vec<Field<KeyTy>> =
        (0..=255u8).map(|i| Field::unnamed(i, KeyTy::Primitive(PrimitiveType::U8))).collect();
    assert!(Ty::union(fields.clone()).is_ok());
    assert_eq!(
        Ty::composition(fields.clone()),
        Err(TyError::Confinement(ConfinementError::Oversize { len: 256, max_len: 255 }))
    );
    assert!(Ty::composition(fields[..255].to_vec()).is_ok());
    let none: Result<Ty<KeyTy>, TyError> = Ty::composition(vec![]);
    assert_eq!(
        none,
        Err(TyError::Confinement(ConfinementError::Undersize { len: 0, min_len: 1 }))
    );
    assert_eq!(
        Ty::array(KeyTy::Primitive(PrimitiveType::U8), 0),
        Err(TyError::Confinement(ConfinementError::Undersize { len: 0, min_len: 1 }))
    );
    assert_eq!(
        Ty::array(KeyTy::Primitive(PrimitiveType::U8), 1),
        Ok(Ty::Array(KeyTy::Primitive(PrimitiveType::U8), 1))
    );
}

#[test]
fn constructors_reject_clashes() {
    let r: Result<Ty<KeyTy>, TyError> =
        Ty::enumerate(vec![Variant::unnamed(3), Variant::unnamed(4), Variant::unnamed(3)]);
    assert_eq!(r, Err(TyError::RepeatedOrd(3)));
    let r: Result<Ty<KeyTy>, TyError> = Ty::enumerate(vec![
        Variant::named(name("a"), 0),
        Variant::unnamed(1),
        Variant::named(name("a"), 2),
    ]);
    assert_eq!(r, Err(TyError::RepeatedName(name("a"))));
    let r = Ty::composition(vec![
        Field::unnamed(1, KeyTy::Primitive(PrimitiveType::U8)),
        Field::unnamed(0, KeyTy::Primitive(PrimitiveType::U8)),
    ]);
    assert_eq!(r, Err(TyError::UnorderedOrd(0)));
    let r = Ty::union(vec![
        Field::unnamed(1, KeyTy::Primitive(PrimitiveType::U8)),
        Field::unnamed(0, KeyTy::Primitive(PrimitiveType::U8)),
    ]);
    assert!(r.is_ok());
}

#[test]
fn compound_and_subtypes() {
    let p: Ty<KeyTy> = Ty::Primitive(PrimitiveType::U8);
    assert!(!p.is_compound());
    assert_eq!(p.count_subtypes(), 0);
    let e: Ty<KeyTy> = Ty::enumerate(vec![Variant::unnamed(0), Variant::unnamed(1)]).unwrap();
    assert!(!e.is_compound());
    assert_eq!(e.count_subtypes(), 0);
    let u: Ty<KeyTy> = Ty::Unicode(Sizing::u8_bound());
    assert!(!u.is_compound());
    assert_eq!(u.count_subtypes(), 0);
    let s = foo(0, 1);
    assert!(s.is_compound());
    assert_eq!(s.count_subtypes(), 2);
    let l: Ty<KeyTy> = Ty::List(KeyTy::Primitive(PrimitiveType::U8), Sizing::u8_bound());
    assert!(l.is_compound());
    assert_eq!(l.count_subtypes(), 1);
    let m: Ty<KeyTy> =
        Ty::MapOf(KeyTy::Array(4), KeyTy::Primitive(PrimitiveType::U8), Sizing::u8_bound());
    assert!(m.is_compound());
    assert_eq!(m.count_subtypes(), 1);
    let a: Ty<KeyTy> = Ty::Array(KeyTy::Primitive(PrimitiveType::U8), 4);
    assert_eq!(a.count_subtypes(), 1);
    let st: Ty<KeyTy> = Ty::SetOf(KeyTy::Primitive(PrimitiveType::U8), Sizing::u8_bound());
    assert_eq!(st.count_subtypes(), 1);
}

#[test]
fn type_text() {
    let p: Ty<KeyTy> = Ty::Primitive(PrimitiveType::F16b);
    assert_eq!(p.to_string(), "f16b");
    let p: Ty<KeyTy> = Ty::Primitive(PrimitiveType::Bytes);
    assert_eq!(p.to_string(), "Bytes");
    assert_eq!(foo(0, 1).to_string(), "{ a : u8, b : u16 }");
    let tuple: Ty<KeyTy> = Ty::composition(vec![
        Field::unnamed(0, KeyTy::Primitive(PrimitiveType::U8)),
        Field::unnamed(1, KeyTy::Array(32)),
    ])
    .unwrap();
    assert_eq!(tuple.to_string(), "(u8, u8[32])");
    let mixed: Ty<KeyTy> = Ty::union(vec![
        Field::named(name("some"), 1, KeyTy::Primitive(PrimitiveType::U8)),
        Field::unnamed(0, KeyTy::Bytes(Sizing::u8_bound())),
    ])
    .unwrap();
    assert_eq!(mixed.to_string(), "{ some : u8 | 0 : [u8] ^ ..255 }");
    let e: Ty<KeyTy> =
        Ty::enumerate(vec![Variant::named(name("no"), 0), Variant::unnamed(7)]).unwrap();
    assert_eq!(e.to_string(), "(no | 7)");
    let a: Ty<KeyTy> = Ty::Array(KeyTy::Primitive(PrimitiveType::I8), 4);
    assert_eq!(a.to_string(), "i8[4]");
    let l: Ty<KeyTy> = Ty::List(KeyTy::Primitive(PrimitiveType::U8), Sizing::u16_bound());
    assert_eq!(l.to_string(), "[u8]");
    let s: Ty<KeyTy> = Ty::SetOf(KeyTy::Primitive(PrimitiveType::U8), Sizing::u8_nonempty());
    assert_eq!(s.to_string(), "{u8} ^ 1..0xff");
    let m: Ty<KeyTy> = Ty::MapOf(
        KeyTy::UnicodeStr(Sizing::u8_bound()),
        KeyTy::Primitive(PrimitiveType::U64),
        Sizing::u16_nonempty(),
    );
    assert_eq!(m.to_string(), "{Unicode ^ ..255} -> u64 ^ 1..");
    let u: Ty<KeyTy> = Ty::Unicode(Sizing::u16_bound());
    assert_eq!(u.to_string(), "Unicode");
}

fn transaction() -> Ty<StenType> {
    let input = Ty::composition(vec![
        Field::named(name("prev_out"), 0, StenType::Inline(Box::new(Ty::Array(prim(PrimitiveType::U8), 32)))),
        Field::named(name("value"), 1, prim(PrimitiveType::U64)),
    ])
    .unwrap();
    let output = Ty::composition(vec![
        Field::named(name("value"), 0, prim(PrimitiveType::U64)),
        Field::named(name("script"), 1, prim(PrimitiveType::Bytes)),
    ])
    .unwrap();
    Ty::composition(vec![
        Field::named(name("version"), 0, prim(PrimitiveType::U32)),
        Field::named(
            name("inputs"),
            1,
            StenType::Inline(Box::new(Ty::List(
                StenType::Named(name("Input"), Box::new(input)),
                Sizing::u16_bound(),
            ))),
        ),
        Field::named(
            name("outputs"),
            2,
            StenType::Inline(Box::new(Ty::List(
                StenType::Named(name("Output"), Box::new(output)),
                Sizing::u16_bound(),
            ))),
        ),
        Field::named(name("locktime"), 3, prim(PrimitiveType::U32)),
    ])
    .unwrap()
}

fn path(steps: Vec<Step>) -> Path {
    let mut path = Path::new();
    for step in steps {
        assert_eq!(path.push(step), Ok(()));
    }
    path
}

#[test]
fn path_navigation() {
    let tx = transaction();
    let p = path(vec![Step::NamedField(name("inputs")), Step::List, Step::NamedField(name("value"))]);
    let found = tx.at_path(&p).unwrap();
    assert_eq!(found, &Ty::Primitive(PrimitiveType::U64));
    let p = path(vec![Step::NamedField(name("outputs")), Step::List, Step::NamedField(name("value"))]);
    assert_eq!(tx.at_path(&p).unwrap(), &Ty::Primitive(PrimitiveType::U64));
    let p = path(vec![Step::UnnamedField(0)]);
    assert_eq!(tx.at_path(&p).unwrap(), &Ty::Primitive(PrimitiveType::U32));
    let p = path(vec![Step::NamedField(name("inputs")), Step::List, Step::UnnamedField(0), Step::Index]);
    assert_eq!(tx.at_path(&p).unwrap(), &Ty::Primitive(PrimitiveType::U8));
}

#[test]
fn path_missing_field() {
    let tx = transaction();
    let p = path(vec![Step::NamedField(name("missing"))]);
    let err = tx.at_path(&p).unwrap_err();
    assert_eq!(err.path, path(vec![Step::NamedField(name("missing"))]));
    assert_eq!(err.ty, &tx);
}

#[test]
fn path_error_holds_steps_so_far() {
    let tx = transaction();
    let p = path(vec![
        Step::NamedField(name("inputs")),
        Step::SetOf,
        Step::NamedField(name("value")),
    ]);
    let err = tx.at_path(&p).unwrap_err();
    assert_eq!(err.path, path(vec![Step::NamedField(name("inputs")), Step::SetOf]));
    assert_eq!(err.ty, &tx);
    // the path that was asked for is left as it was
    assert_eq!(p.len(), 3);
}

#[test]
fn empty_path_is_the_type_itself() {
    let tx = transaction();
    assert_eq!(tx.at_path(&Path::new()).unwrap(), &tx);
}

#[test]
fn map_step_descends_into_value() {
    let m: Ty<StenType> =
        Ty::MapOf(KeyTy::Primitive(PrimitiveType::U8), prim(PrimitiveType::U64), Sizing::u8_bound());
    assert_eq!(m.at_path(&Path::with(Step::MapOf)).unwrap(), &Ty::Primitive(PrimitiveType::U64));
    assert!(m.at_path(&Path::with(Step::List)).is_err());
    let s: Ty<StenType> = Ty::SetOf(prim(PrimitiveType::U64), Sizing::u8_bound());
    assert_eq!(s.at_path(&Path::with(Step::SetOf)).unwrap(), &Ty::Primitive(PrimitiveType::U64));
}

#[test]
fn path_reaches_type_with_the_reference_id() {
    let tx = transaction();
    let p = path(vec![Step::NamedField(name("inputs"))]);
    let reached = tx.at_path(&p).unwrap();
    let reference = tx.select(&Step::NamedField(name("inputs"))).unwrap();
    assert_eq!(reached.id(None), reference.id());
    assert_eq!(reached.id(None), desc_sem_id(reference));
}

#[test]
fn path_text() {
    let p = path(vec![
        Step::NamedField(name("inputs")),
        Step::List,
        Step::UnnamedField(12),
        Step::Index,
        Step::SetOf,
        Step::MapOf,
    ]);
    assert_eq!(p.to_string(), ".inputs[].12#{}->");
    assert_eq!(Path::new().to_string(), "");
    assert_eq!(p.iter().len(), 6);
    assert_eq!(p.clone(), p);
}

#[test]
fn path_holds_65535_steps_at_most() {
    let mut p = Path::new();
    for _ in 0..65535 {
        assert_eq!(p.push(Step::Index), Ok(()));
    }
    assert_eq!(
        p.push(Step::Index),
        Err(ConfinementError::Oversize { len: 65536, max_len: 65535 })
    );
    assert_eq!(p.len(), 65535);
}

#[test]
fn automatic_name() {
    let mut bytes = [0u8; 32];
    bytes[0] = 0xde;
    bytes[1] = 0xad;
    bytes[2] = 0x0b;
    bytes[3] = 0xef;
    bytes[4] = 0x77;
    assert_eq!(SemId(bytes).auto_ident(), name("AutoDEAD0BEF"));
    assert_eq!(SemId([0; 32]).auto_ident().as_str(), "Auto00000000");
}

#[test]
fn sem_id_same() {
    let a = SemId([3; 32]);
    let mut other = [3u8; 32];
    other[31] = 4;
    assert!(a.same(&SemId([3; 32])));
    assert!(!a.same(&SemId(other)));
    assert_eq!(SemId::from_bytes([9; 32]).as_slice(), &[9u8; 32][..]);
}

#[test]
fn invariants_of_a_type_are_checked() {
    let fine = foo(0, 1);
    assert_eq!(fine.check_wf(), Ok(()));
    let list: Ty<KeyTy> = Ty::List(KeyTy::Primitive(PrimitiveType::U8), Sizing::new(3, 2));
    assert_eq!(list.check_wf(), Err(TyError::InvalidSizing(Sizing::new(3, 2))));
    let map: Ty<KeyTy> =
        Ty::MapOf(KeyTy::Array(0), KeyTy::Primitive(PrimitiveType::U8), Sizing::new(3, 2));
    assert_eq!(
        map.check_wf(),
        Err(TyError::Confinement(ConfinementError::Undersize { len: 0, min_len: 1 }))
    );
    let map: Ty<KeyTy> =
        Ty::MapOf(KeyTy::Array(1), KeyTy::Primitive(PrimitiveType::U8), Sizing::new(3, 2));
    assert_eq!(map.check_wf(), Err(TyError::InvalidSizing(Sizing::new(3, 2))));
    let unordered: Ty<KeyTy> = Ty::Struct(vec![
        Field::unnamed(2, KeyTy::Primitive(PrimitiveType::U8)),
        Field::unnamed(1, KeyTy::Primitive(PrimitiveType::U8)),
    ]);
    assert_eq!(unordered.check_wf(), Err(TyError::UnorderedOrd(1)));
    let empty: Ty<KeyTy> = Ty::Enum(vec![]);
    assert_eq!(
        empty.check_wf(),
        Err(TyError::Confinement(ConfinementError::Undersize { len: 0, min_len: 1 }))
    );
    assert_eq!(KeyTy::Bytes(Sizing::new(2, 1)).check_wf(), Err(TyError::InvalidSizing(Sizing::new(2, 1))));
    assert_eq!(KeyTy::AsciiStr(Sizing::new(1, 1)).check_wf(), Ok(()));
}
