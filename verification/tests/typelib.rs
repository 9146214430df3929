use sha2::{Digest, Sha256};
use strict_types::ast::id::{SemId, TypeRef, LIB_ID_TAG};
use strict_types::ast::sten::StenType;
use strict_types::ast::ty::{Field, KeyTy, Ty, TyError};
use strict_types::ord_map::OrdMap;
use strict_types::schema::PrimitiveType;
use strict_types::typelib::builder::LibBuilder;
use strict_types::typelib::id::{prefixed, TypeLibId};
use strict_types::typelib::type_lib::{
    Dependency, InlineRef, InlineRef1, InlineRef2, LibRef, TranslateError, TypeLib,
};
use strict_types::util::{ConfinementError, Ident, SemVer, Sizing};

fn tagged(content: &[u8]) -> [u8; 32] {
    let tag = Sha256::digest(LIB_ID_TAG.as_bytes());
    let mut hasher = Sha256::new();
    hasher.update(tag);
    hasher.update(tag);
    hasher.update(content);
    hasher.finalize().into()
}

fn name(s: &str) -> Ident {
    Ident::from_str(s)
}

fn prim(p: PrimitiveType) -> StenType {
    StenType::Inline(Box::new(Ty::Primitive(p)))
}

fn inline(ty: Ty<StenType>) -> StenType {
    StenType::Inline(Box::new(ty))
}

fn named(n: &str, ty: Ty<StenType>) -> StenType {
    StenType::Named(name(n), Box::new(ty))
}

fn byte_str() -> StenType {
    named("ByteStr", Ty::List(prim(PrimitiveType::U8), Sizing::u16_bound()))
}

fn foo() -> StenType {
    named(
        "Foo",
        Ty::composition(vec![
            Field::named(name("a"), 0, prim(PrimitiveType::U8)),
            Field::named(name("b"), 1, prim(PrimitiveType::U16)),
        ])
        .unwrap(),
    )
}

fn lib_of(lib_name: &str, roots: &[StenType]) -> Result<TypeLib, TranslateError> {
    let mut builder = LibBuilder::new(name(lib_name), OrdMap::new());
    for root in roots {
        builder = builder.transpile(root)?;
    }
    builder.compile()
}

fn dependency(lib_name: &str, id: u8) -> Dependency {
    Dependency { id: TypeLibId([id; 32]), name: name(lib_name), ver: SemVer::new(1, 2, 3) }
}

#[test]
fn byte_string_library_text() {
    let lib = lib_of("Test", &[byte_str()]).unwrap();
    assert_eq!(
        lib.to_string(),
        "typemod Test

-- no dependencies

data ByteStr          :: [u8]
"
    );
}

#[test]
fn library_id_commits_to_name_dependencies_and_types() {
    let lib = lib_of("Test", &[byte_str()]).unwrap();
    let mut ty = vec![5u8, 7];
    ty.extend(b"ByteStr");
    ty.extend(tagged(&[0, 0]));
    ty.extend([0, 0, 255, 255]);
    let mut content = vec![4u8];
    content.extend(b"Test");
    content.push(0);
    content.extend([1, 0]);
    content.extend(tagged(&ty));
    assert_eq!(lib.id(), TypeLibId(tagged(&content)));
    assert_eq!(lib.id(), lib.id());
}

#[test]
fn same_type_in_two_libraries() {
    let a = lib_of("A", &[foo()]).unwrap();
    let b = lib_of("B", &[foo()]).unwrap();
    let in_a = a.types().get(&name("Foo")).unwrap();
    let in_b = b.types().get(&name("Foo")).unwrap();
    assert_eq!(in_a, in_b);
    assert_eq!(in_a.id(Some(&name("Foo"))), in_b.id(Some(&name("Foo"))));
    assert_ne!(a.id(), b.id());
}

#[test]
fn duplicate_name() {
    let other = named("Foo", Ty::Primitive(PrimitiveType::U8));
    assert_eq!(
        lib_of("Test", &[foo(), other]).unwrap_err(),
        TranslateError::DuplicateName(name("Foo"))
    );
    // the same type twice under its name is no duplicate
    let lib = lib_of("Test", &[foo(), foo()]).unwrap();
    assert_eq!(lib.types().len(), 1);
    // nor is a type that occurs at two places of a description
    let twice = named(
        "Pair",
        Ty::composition(vec![Field::unnamed(0, foo()), Field::unnamed(1, foo())]).unwrap(),
    );
    let lib = lib_of("Test", &[twice]).unwrap();
    assert_eq!(lib.types().len(), 2);
}

#[test]
fn extern_alias_missing() {
    let ext = StenType::Extern(name("Remote"), name("xyz"), SemId([7; 32]));
    let root = named("Holder", Ty::List(ext, Sizing::u8_bound()));
    assert_eq!(
        lib_of("Test", &[root]).unwrap_err(),
        TranslateError::UnknownDependency(name("xyz"))
    );
}

#[test]
fn extern_alias_declared() {
    let ext = StenType::Extern(name("Remote"), name("xyz"), SemId([7; 32]));
    let root = named("Holder", Ty::List(ext, Sizing::u8_bound()));
    let mut deps = OrdMap::new();
    assert!(deps.insert(name("xyz"), dependency("Other", 9)).is_none());
    assert!(deps.insert(name("Std"), dependency("Std", 1)).is_none());
    let lib = LibBuilder::new(name("Test"), deps).transpile(&root).unwrap().compile().unwrap();
    assert_eq!(
        lib.types().get(&name("Holder")).unwrap(),
        &Ty::List(LibRef::Extern(name("Remote"), name("xyz"), SemId([7; 32])), Sizing::u8_bound())
    );
    let text = lib.to_string();
    let std_id = TypeLibId([1; 32]).to_string();
    let other_id = TypeLibId([9; 32]).to_string();
    assert_eq!(
        text,
        format!(
            "typemod Test\n\ntypelib Std@1.2.3 {std_id}\ntypelib Other@1.2.3 {other_id} as xyz\n\n\
             data Holder           :: [xyz.Remote] ^ ..255\n"
        )
    );
    // the identifier commits to the identifiers of the dependencies in the order of the aliases
    let mut ty = vec![5u8, 6];
    ty.extend(b"Holder");
    ty.extend([7; 32]);
    ty.extend([0, 0, 255, 0]);
    let mut content = vec![4u8];
    content.extend(b"Test");
    content.push(2);
    content.extend([1; 32]);
    content.extend([9; 32]);
    content.extend([1, 0]);
    content.extend(tagged(&ty));
    assert_eq!(lib.id(), TypeLibId(tagged(&content)));
}

#[test]
fn construction_order_does_not_matter() {
    let other = named("Bar", Ty::Unicode(Sizing::u8_bound()));
    let other2 = named("Bar", Ty::Unicode(Sizing::u8_bound()));
    let ab = lib_of("Test", &[foo(), other]).unwrap();
    let ba = lib_of("Test", &[other2, foo()]).unwrap();
    assert_eq!(ab, ba);
    assert_eq!(ab.id(), ba.id());
    assert_eq!(ab.to_string(), ba.to_string());
    assert_eq!(ab.types().entry(0).key, name("Bar"));
    assert_eq!(ab.types().entry(1).key, name("Foo"));
}

#[test]
fn named_children_become_types_of_the_library() {
    let root = named(
        "Outer",
        Ty::composition(vec![
            Field::named(name("inner"), 0, foo()),
            Field::named(name("list"), 1, inline(Ty::List(byte_str(), Sizing::u8_bound()))),
        ])
        .unwrap(),
    );
    let lib = lib_of("Test", &[root]).unwrap();
    assert_eq!(lib.types().len(), 3);
    let outer = lib.types().get(&name("Outer")).unwrap();
    let foo_id = lib.types().get(&name("Foo")).unwrap().id(Some(&name("Foo")));
    let bytes_id = lib.types().get(&name("ByteStr")).unwrap().id(Some(&name("ByteStr")));
    assert_eq!(
        outer,
        &Ty::Struct(vec![
            Field::named(name("inner"), 0, LibRef::Named(name("Foo"), foo_id)),
            Field::named(
                name("list"),
                1,
                LibRef::Inline(Ty::List(
                    InlineRef::Named(name("ByteStr"), bytes_id),
                    Sizing::u8_bound()
                ))
            ),
        ])
    );
    assert_eq!(
        lib.to_string(),
        "typemod Test\n\n-- no dependencies\n\n\
         data ByteStr          :: [u8]\n\
         data Foo              :: { a : u8, b : u16 }\n\
         data Outer            :: { inner : Foo, list : ([ByteStr] ^ ..255) }\n"
    );
}

fn nest(depth: usize) -> StenType {
    let mut d = prim(PrimitiveType::U8);
    for _ in 0..depth {
        d = inline(Ty::List(d, Sizing::u8_bound()));
    }
    d
}

#[test]
fn inline_types_nest_through_the_ladder() {
    // four lists inside the named type end in a key type
    let root = named("Deep", Ty::List(nest(4), Sizing::u8_bound()));
    let lib = lib_of("Test", &[root]).unwrap();
    let b = Sizing::u8_bound();
    assert_eq!(
        lib.types().get(&name("Deep")).unwrap(),
        &Ty::List(
            LibRef::Inline(Ty::List(
                InlineRef::Builtin(Ty::List(
                    InlineRef1::Builtin(Ty::List(
                        InlineRef2::Builtin(Ty::List(KeyTy::Primitive(PrimitiveType::U8), b)),
                        b
                    )),
                    b
                )),
                b
            )),
            b
        )
    );
    // a list of bytes at the deepest place is a key type of bytes
    let root = named("Deep", Ty::List(nest(5), Sizing::u8_bound()));
    let lib = lib_of("Test", &[root]).unwrap();
    assert_eq!(
        lib.types().get(&name("Deep")).unwrap(),
        &Ty::List(
            LibRef::Inline(Ty::List(
                InlineRef::Builtin(Ty::List(
                    InlineRef1::Builtin(Ty::List(
                        InlineRef2::Builtin(Ty::List(KeyTy::Bytes(b), b)),
                        b
                    )),
                    b
                )),
                b
            )),
            b
        )
    );
}

#[test]
fn too_deep() {
    let root = named("Deep", Ty::List(nest(6), Sizing::u8_bound()));
    assert_eq!(lib_of("Test", &[root]).unwrap_err(), TranslateError::TooDeep);
    // a name ends the nesting
    let inner = named("Inner", Ty::List(nest(4), Sizing::u8_bound()));
    let mut d = inner;
    for _ in 0..3 {
        d = inline(Ty::List(d, Sizing::u8_bound()));
    }
    let root = named("Deep", Ty::List(d, Sizing::u8_bound()));
    let lib = lib_of("Test", &[root]).unwrap();
    assert_eq!(lib.types().len(), 2);
    // but not below the last form of reference
    let inner = named("Inner", Ty::Primitive(PrimitiveType::U8));
    let mut d = inner;
    for _ in 0..4 {
        d = inline(Ty::List(d, Sizing::u8_bound()));
    }
    let root = named("Deep", Ty::List(d, Sizing::u8_bound()));
    assert_eq!(lib_of("Test", &[root]).unwrap_err(), TranslateError::TooDeep);
}

#[test]
fn translation_keeps_identifiers() {
    let root = named(
        "Outer",
        Ty::composition(vec![
            Field::named(name("inner"), 0, foo()),
            Field::named(name("deep"), 1, nest(3)),
        ])
        .unwrap(),
    );
    let id = root.id();
    let lib = lib_of("Test", &[root]).unwrap();
    assert_eq!(lib.types().get(&name("Outer")).unwrap().id(Some(&name("Outer"))), id);
    assert_eq!(lib.types().get(&name("Foo")).unwrap().id(Some(&name("Foo"))), foo().id());
}

#[test]
fn library_needs_a_type() {
    assert_eq!(
        lib_of("Test", &[]).unwrap_err(),
        TranslateError::Confinement(ConfinementError::Undersize { len: 0, min_len: 1 })
    );
    assert_eq!(
        lib_of("Test", &[prim(PrimitiveType::U8)]).unwrap_err(),
        TranslateError::Confinement(ConfinementError::Undersize { len: 0, min_len: 1 })
    );
}

#[test]
fn library_holds_255_dependencies_at_most() {
    let mut deps = OrdMap::new();
    for i in 0..256u32 {
        deps.insert(name(&format!("Dep{i}")), dependency("Other", 3));
    }
    let r = LibBuilder::new(name("Test"), deps).transpile(&foo()).unwrap().compile();
    assert_eq!(
        r.unwrap_err(),
        TranslateError::Confinement(ConfinementError::Oversize { len: 256, max_len: 255 })
    );
}

#[test]
fn unknown_type() {
    let mut types = OrdMap::new();
    types.insert(
        name("Holder"),
        Ty::List(LibRef::Named(name("Absent"), SemId([0; 32])), Sizing::u8_bound()),
    );
    assert_eq!(
        TypeLib::new(name("Test"), OrdMap::new(), types).unwrap_err(),
        TranslateError::UnknownType(name("Absent"))
    );
    // a name with another identifier than the reference carries does not resolve either
    let mut types = OrdMap::new();
    types.insert(name("Item"), Ty::Primitive(PrimitiveType::U8));
    types.insert(
        name("Holder"),
        Ty::List(LibRef::Named(name("Item"), SemId([0; 32])), Sizing::u8_bound()),
    );
    assert_eq!(
        TypeLib::new(name("Test"), OrdMap::new(), types).unwrap_err(),
        TranslateError::UnknownType(name("Item"))
    );
    let item: Ty<LibRef> = Ty::Primitive(PrimitiveType::U8);
    let id = item.id(Some(&name("Item")));
    let mut types = OrdMap::new();
    types.insert(name("Item"), item);
    types.insert(
        name("Holder"),
        Ty::List(
            LibRef::Inline(Ty::List(InlineRef::Named(name("Item"), id), Sizing::u8_bound())),
            Sizing::u8_bound(),
        ),
    );
    assert!(TypeLib::new(name("Test"), OrdMap::new(), types).is_ok());
}

#[test]
fn unknown_dependency_in_parts() {
    let mut types = OrdMap::new();
    types.insert(
        name("Holder"),
        Ty::List(
            LibRef::Inline(Ty::SetOf(
                InlineRef::Extern(name("Remote"), name("lib"), SemId([0; 32])),
                Sizing::u8_bound(),
            )),
            Sizing::u8_bound(),
        ),
    );
    assert_eq!(
        TypeLib::new(name("Test"), OrdMap::new(), types).unwrap_err(),
        TranslateError::UnknownDependency(name("lib"))
    );
}

#[test]
fn identifier_text() {
    assert_eq!(SemId([0; 32]).to_string(), format!("stl:{}", "1".repeat(32)));
    assert_eq!(TypeLibId([0; 32]).to_string(), format!("stl:{}", "1".repeat(32)));
    let text = SemId(tagged(&[0, 0])).to_string();
    assert!(text.starts_with("stl:"));
    assert!(text.len() > 40);
    assert!(text[4..].chars().all(|c| c.is_ascii_alphanumeric() && !"0OIl".contains(c)));
    assert_ne!(SemId([1; 32]).to_string(), SemId([2; 32]).to_string());
}

#[test]
fn identifier_text_with_and_without_prefix() {
    let text = SemId([5; 32]).to_string();
    assert_eq!(prefixed(&text), text);
    assert_eq!(prefixed(&text[4..]), text);
    assert_eq!(prefixed("abc"), "stl:abc");
    assert_eq!(prefixed(""), "stl:");
}

#[test]
fn builder_id_is_the_id_of_the_library() {
    let builder = LibBuilder::new(name("Test"), OrdMap::new()).transpile(&foo()).unwrap();
    let id = builder.id().unwrap();
    assert_eq!(builder.compile().unwrap().id(), id);
}

#[test]
fn types_that_break_their_invariants_are_refused() {
    // an array without items
    let root = named("Bad", Ty::Array(prim(PrimitiveType::U8), 0));
    assert_eq!(
        lib_of("Test", &[root]).unwrap_err(),
        TranslateError::InvalidType(TyError::Confinement(ConfinementError::Undersize {
            len: 0,
            min_len: 1
        }))
    );
    // a structure with an ordinal twice, inline below a type with a name
    let inner = Ty::Struct(vec![
        Field::unnamed(0, prim(PrimitiveType::U8)),
        Field::unnamed(0, prim(PrimitiveType::U16)),
    ]);
    let root = named("Bad", Ty::List(inline(inner), Sizing::u8_bound()));
    assert_eq!(
        lib_of("Test", &[root]).unwrap_err(),
        TranslateError::InvalidType(TyError::RepeatedOrd(0))
    );
    // a sizing whose bounds are out of order, at the place of a key type
    let mut d = inline(Ty::Unicode(Sizing::new(5, 1)));
    for _ in 0..4 {
        d = inline(Ty::List(d, Sizing::u8_bound()));
    }
    let root = named("Bad", Ty::List(d, Sizing::u8_bound()));
    assert_eq!(
        lib_of("Test", &[root]).unwrap_err(),
        TranslateError::InvalidType(TyError::InvalidSizing(Sizing::new(5, 1)))
    );
    // the fault of the type comes before the faults of the types nested in it
    let ext = StenType::Extern(name("Remote"), name("xyz"), SemId([7; 32]));
    let root = named("Bad", Ty::List(ext, Sizing::new(9, 2)));
    assert_eq!(
        lib_of("Test", &[root]).unwrap_err(),
        TranslateError::InvalidType(TyError::InvalidSizing(Sizing::new(9, 2)))
    );
}

#[test]
fn library_parts_that_break_their_invariants_are_refused() {
    let mut types = OrdMap::new();
    types.insert(name("Fine"), Ty::Primitive(PrimitiveType::U8));
    types.insert(
        name("Holder"),
        Ty::List(
            LibRef::Inline(Ty::Array(InlineRef::Builtin(Ty::Primitive(PrimitiveType::U8)), 0)),
            Sizing::u8_bound(),
        ),
    );
    assert_eq!(
        TypeLib::new(name("Test"), OrdMap::new(), types).unwrap_err(),
        TranslateError::InvalidType(TyError::Confinement(ConfinementError::Undersize {
            len: 0,
            min_len: 1
        }))
    );
    // an invalid type is reported before a reference that does not resolve
    let mut types = OrdMap::new();
    types.insert(
        name("A"),
        Ty::List(LibRef::Named(name("Absent"), SemId([0; 32])), Sizing::u8_bound()),
    );
    types.insert(
        name("B"),
        Ty::Union(vec![
            Field::named(name("x"), 0, LibRef::Inline(Ty::Primitive(PrimitiveType::U8))),
            Field::named(name("x"), 1, LibRef::Inline(Ty::Primitive(PrimitiveType::U8))),
        ]),
    );
    assert_eq!(
        TypeLib::new(name("Test"), OrdMap::new(), types).unwrap_err(),
        TranslateError::InvalidType(TyError::RepeatedName(name("x")))
    );
}

#[test]
fn the_first_undeclared_alias_is_reported() {
    let ext = |alias: &str| StenType::Extern(name("Remote"), name(alias), SemId([7; 32]));
    let root = || {
        named(
            "Holder",
            Ty::composition(vec![
                Field::unnamed(0, prim(PrimitiveType::U8)),
                Field::unnamed(1, inline(Ty::List(ext("zeta"), Sizing::u8_bound()))),
                Field::unnamed(2, ext("alpha")),
            ])
            .unwrap(),
        )
    };
    assert_eq!(
        lib_of("Test", &[root()]).unwrap_err(),
        TranslateError::UnknownDependency(name("zeta"))
    );
    let mut deps = OrdMap::new();
    deps.insert(name("zeta"), dependency("Other", 9));
    assert_eq!(
        LibBuilder::new(name("Test"), deps).transpile(&root()).unwrap_err(),
        TranslateError::UnknownDependency(name("alpha"))
    );
    // a type of a later type with a name comes after the types of the first
    let two = named(
        "Outer",
        Ty::composition(vec![
            Field::unnamed(0, named("Inner", Ty::List(ext("deep"), Sizing::u8_bound()))),
            Field::unnamed(1, ext("flat")),
        ])
        .unwrap(),
    );
    assert_eq!(
        lib_of("Test", &[two]).unwrap_err(),
        TranslateError::UnknownDependency(name("flat"))
    );
}

#[test]
fn index_keeps_its_entries_when_a_name_clashes() {
    let mut index = OrdMap::new();
    foo().index(&mut index).unwrap();
    let foo_id = foo().id();
    assert_eq!(index.len(), 1);
    // the root clashes: the index is left as it was
    let clash = named("Foo", Ty::Primitive(PrimitiveType::U8));
    assert_eq!(clash.index(&mut index), Err(TranslateError::DuplicateName(name("Foo"))));
    assert_eq!(index.len(), 1);
    assert_eq!(index.get(&name("Foo")), Some(&foo_id));
    // a nested type clashes: what was entered before it stays
    let outer = named(
        "Outer",
        Ty::composition(vec![
            Field::unnamed(0, byte_str()),
            Field::unnamed(1, named("Foo", Ty::Primitive(PrimitiveType::U8))),
            Field::unnamed(2, named("Late", Ty::Primitive(PrimitiveType::U8))),
        ])
        .unwrap(),
    );
    let outer_id = outer.id();
    assert_eq!(outer.index(&mut index), Err(TranslateError::DuplicateName(name("Foo"))));
    assert_eq!(index.len(), 3);
    assert_eq!(index.get(&name("Foo")), Some(&foo_id));
    assert_eq!(index.get(&name("Outer")), Some(&outer_id));
    assert_eq!(index.get(&name("ByteStr")), Some(&byte_str().id()));
    assert_eq!(index.get(&name("Late")), None);
    // the same identifier under another name clashes too
    let mut index = OrdMap::new();
    index.insert(name("Other"), foo_id);
    assert_eq!(foo().index(&mut index), Err(TranslateError::DuplicateName(name("Foo"))));
    assert_eq!(index.len(), 1);
}

#[test]
fn index_finds_the_name_of_an_identifier() {
    use_index();
}

fn use_index() {
    let index = foo().build_index().unwrap();
    let id = foo().id();
    assert_eq!(strict_types::typelib::builder::index_name(&index, &id), Some(&name("Foo")));
    assert_eq!(strict_types::typelib::builder::index_name(&index, &SemId([0; 32])), None);
}
