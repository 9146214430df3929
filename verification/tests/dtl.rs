use strict_types::ast::id::{SemId, TypeRef};
use strict_types::ast::path::{NestedRef, Path, Step};
use strict_types::ast::sten::StenType;
use strict_types::ast::text::RefText;
use strict_types::ast::ty::{Field, Ty};
use strict_types::dtl::gravel::{Dependency, Gravel, GravelId, GravelTy, Hasher};
use strict_types::dtl::{id_less, IdSet, InlineRef, LibHasher, LibId, TypeLib};
use strict_types::ord_map::OrdMap;
use strict_types::schema::PrimitiveType;
use strict_types::typelib::id::Urn;
use strict_types::typelib::id::TypeLibId;
use strict_types::typelib::type_lib::TranslateError;
use strict_types::util::{Ident, SemVer, Sizing};

fn name(s: &str) -> Ident {
    Ident::from_str(s)
}

fn prim(p: PrimitiveType) -> StenType {
    StenType::Inline(Box::new(Ty::Primitive(p)))
}

fn named(n: &str, ty: Ty<StenType>) -> StenType {
    StenType::Named(name(n), Box::new(ty))
}

fn sample() -> StenType {
    let inner = named(
        "Inner",
        Ty::composition(vec![
            Field::named(name("a"), 0, prim(PrimitiveType::U8)),
            Field::named(name("b"), 1, prim(PrimitiveType::U16)),
        ])
        .unwrap(),
    );
    named(
        "Outer",
        Ty::composition(vec![
            Field::named(name("inner"), 0, inner),
            Field::named(
                name("list"),
                1,
                StenType::Inline(Box::new(Ty::List(prim(PrimitiveType::U8), Sizing::u8_bound()))),
            ),
        ])
        .unwrap(),
    )
}

#[test]
fn keyed_hash_of_identifiers() {
    let mut hasher = LibHasher::new();
    hasher.input(SemId([1; 32]));
    hasher.input(SemId([2; 32]));
    let mut input = vec![1u8; 32];
    input.extend([2u8; 32]);
    let expected = blake3::keyed_hash(&[0; 32], &input);
    assert_eq!(hasher.finish(), LibId(*expected.as_bytes()));
    let empty = blake3::keyed_hash(&[0; 32], &[]);
    assert_eq!(LibHasher::new().finish(), LibId(*empty.as_bytes()));
    assert_ne!(empty.as_bytes(), &[0u8; 32]);

    let mut hasher = Hasher::new();
    hasher.input(SemId([1; 32]));
    hasher.input(SemId([2; 32]));
    assert_eq!(hasher.finish(), GravelId(*expected.as_bytes()));
}

#[test]
fn id_set_keeps_order() {
    let mut set = IdSet::new();
    assert!(set.insert(SemId([5; 32])));
    assert!(set.insert(SemId([1; 32])));
    assert!(set.insert(SemId([9; 32])));
    assert!(!set.insert(SemId([5; 32])));
    let mut low = [5u8; 32];
    low[31] = 4;
    assert!(set.insert(SemId(low)));
    assert_eq!(set.len(), 4);
    assert_eq!(set.get(0), SemId([1; 32]));
    assert_eq!(set.get(1), SemId(low));
    assert_eq!(set.get(2), SemId([5; 32]));
    assert_eq!(set.get(3), SemId([9; 32]));
    assert!(id_less(&SemId(low), &SemId([5; 32])));
    assert!(!id_less(&SemId([5; 32]), &SemId(low)));
    assert!(!id_less(&SemId([5; 32]), &SemId([5; 32])));
    assert_eq!(id_less(&SemId(low), &SemId([5; 32])), SemId(low) < SemId([5; 32]));
}

#[test]
fn library_of_a_description() {
    let root = sample();
    let id = root.id();
    let lib = TypeLib::try_from(&root).unwrap();
    assert_eq!(lib.roots, IdSet::with(id));
    assert_eq!(lib.types.len(), 2);
    assert_eq!(lib.index.len(), 2);
    assert_eq!(lib.index.get(&name("Outer")), Some(&id));
    assert_eq!(
        lib.types.get(&name("Outer")).unwrap(),
        &Ty::Struct(vec![
            Field::named(name("inner"), 0, InlineRef::Name(name("Inner"))),
            Field::named(
                name("list"),
                1,
                InlineRef::Inline(Box::new(Ty::List(
                    InlineRef::Inline(Box::new(Ty::Primitive(PrimitiveType::U8))),
                    Sizing::u8_bound()
                )))
            ),
        ])
    );
    assert_eq!(
        lib.to_string(),
        "data Inner            :: { a : u8, b : u16 }\n\
         data Outer            :: { inner : Inner, list : ([u8] ^ ..255) }\n"
    );
    let expected = blake3::keyed_hash(&[0; 32], &id.0);
    assert_eq!(lib.id(), LibId(*expected.as_bytes()));
}

#[test]
fn library_needs_a_named_root() {
    let root = prim(PrimitiveType::U8);
    let id = root.id();
    assert_eq!(TypeLib::try_from(&root).unwrap_err(), TranslateError::UnknownId(id));
}

#[test]
fn library_rejects_duplicates_and_foreign_types() {
    let clash = named(
        "Outer",
        Ty::composition(vec![
            Field::unnamed(0, named("X", Ty::Primitive(PrimitiveType::U8))),
            Field::unnamed(1, named("X", Ty::Primitive(PrimitiveType::U16))),
        ])
        .unwrap(),
    );
    assert_eq!(
        TypeLib::try_from(&clash).unwrap_err(),
        TranslateError::DuplicateName(name("X"))
    );
    let foreign = named(
        "Outer",
        Ty::List(StenType::Extern(name("T"), name("other"), SemId([0; 32])), Sizing::u8_bound()),
    );
    assert_eq!(
        TypeLib::try_from(&foreign).unwrap_err(),
        TranslateError::UnknownDependency(name("other"))
    );
}

#[test]
fn lib_id_text() {
    let mut bytes = [0u8; 32];
    bytes[0] = 0xab;
    bytes[31] = 0x0f;
    let id = LibId(bytes);
    let hex = format!("ab{}0f", "0".repeat(60));
    assert_eq!(id.to_string(), format!("urn:ubideco:setl:{hex}"));
    assert_eq!(id.to_string(), format!("urn:ubideco:setl:{}", blake3::Hash::from(bytes)));
    let words = mnemonic::to_string(&bytes[14..18]);
    assert_eq!(id.to_alt_string(), format!("urn:ubideco:setl:{hex}#{words}"));
    assert_eq!(GravelId(bytes).to_string(), hex);
    assert_eq!(GravelId(bytes).to_alt_string(), format!("{hex}#{words}"));
}

#[test]
fn mnemonic_is_taken_from_bytes_14_to_18() {
    let mut bytes = [0u8; 32];
    bytes[14] = 101;
    bytes[15] = 2;
    bytes[16] = 240;
    bytes[17] = 6;
    bytes[18] = 200;
    assert_eq!(GravelId(bytes).to_alt_string(), format!("{}#digital-apollo-aroma", GravelId(bytes).to_string()));
}

#[test]
fn urn_text() {
    let mut bytes = [7u8; 32];
    bytes[14] = 101;
    bytes[15] = 2;
    bytes[16] = 240;
    bytes[17] = 6;
    let lib = Urn::Lib(TypeLibId(bytes));
    let ty = Urn::Type(SemId(bytes));
    assert_eq!(lib.to_string(), format!("urn:sten:lib:{}", TypeLibId(bytes).to_string()));
    assert_eq!(ty.to_string(), format!("urn:sten:id:{}", SemId(bytes).to_string()));
    assert_eq!(lib.to_alt_string(), format!("{}#digital-apollo-aroma", lib.to_string()));
    assert_eq!(ty.to_alt_string(), format!("{}#digital-apollo-aroma", ty.to_string()));
    assert!(lib.to_string().starts_with("urn:sten:lib:stl:"));
}

#[test]
fn gravel_references() {
    let inner: Ty<GravelTy> = Ty::List(
        GravelTy::Extern(name("Remote"), name("other")),
        Sizing::u8_bound(),
    );
    let r = GravelTy::Inline(Box::new(inner));
    assert_eq!(r.to_string(), "([other.Remote] ^ ..255)");
    assert_eq!(GravelTy::Name(name("Local")).to_string(), "Local");
    assert!(GravelTy::Name(name("Local")).as_ty().is_none());
    assert!(GravelTy::Extern(name("Remote"), name("other")).as_ty().is_none());
    assert_eq!(r.as_ty().unwrap().count_subtypes(), 1);
    assert!(GravelTy::Name(name("Local")).into_ty().is_none());
    let ty = r.into_ty().unwrap();
    assert_eq!(
        ty.at_path(&Path::with(Step::List)).unwrap_err().path,
        Path::with(Step::List)
    );
}

#[test]
fn gravel_id_and_text() {
    let mut roots = IdSet::new();
    roots.insert(SemId([8; 32]));
    roots.insert(SemId([3; 32]));
    let mut types = OrdMap::new();
    types.insert(name("Item"), Ty::Primitive(PrimitiveType::U8));
    types.insert(
        name("Holder"),
        Ty::composition(vec![
            Field::unnamed(0, GravelTy::Name(name("Item"))),
            Field::unnamed(1, GravelTy::Extern(name("Remote"), name("other"))),
        ])
        .unwrap(),
    );
    let mut dependencies = OrdMap::new();
    dependencies.insert(
        name("other"),
        Dependency { id: GravelId([1; 32]), name: name("Other"), ver: SemVer::new(0, 1, 0) },
    );
    let gravel = Gravel { roots, dependencies, types };
    let mut input = vec![3u8; 32];
    input.extend([8u8; 32]);
    assert_eq!(gravel.id(), GravelId(*blake3::keyed_hash(&[0; 32], &input).as_bytes()));
    assert_eq!(
        gravel.to_string(),
        "data Holder           :: (Item, other.Remote)\n\
         data Item             :: u8\n"
    );
    let dep = gravel.dependencies.get(&name("other")).unwrap();
    let words = mnemonic::to_string(&[1u8; 4]);
    assert_eq!(dep.to_string(), format!("typelib Other@0.1.0 {}#{words}", "01".repeat(32)));
}

#[test]
fn path_error_message() {
    let ty: Ty<GravelTy> = Ty::List(GravelTy::Name(name("Item")), Sizing::u8_bound());
    let err = ty.at_path(&Path::with(Step::Index)).unwrap_err();
    assert_eq!(err.to_string(), "no type path # exists within type [Item] ^ ..255");
}

#[test]
fn library_reports_the_first_foreign_type() {
    let ext = |alias: &str| StenType::Extern(name("T"), name(alias), SemId([0; 32]));
    let root = named(
        "Outer",
        Ty::composition(vec![
            Field::unnamed(0, named("Inner", Ty::List(ext("deep"), Sizing::u8_bound()))),
            Field::unnamed(
                1,
                StenType::Inline(Box::new(Ty::List(ext("first"), Sizing::u8_bound()))),
            ),
            Field::unnamed(2, ext("second")),
        ])
        .unwrap(),
    );
    // the inline types of the root come before the types of the types with a name in it
    assert_eq!(
        TypeLib::try_from(&root).unwrap_err(),
        TranslateError::UnknownDependency(name("first"))
    );
    let root = named(
        "Outer",
        Ty::composition(vec![
            Field::unnamed(0, named("Inner", Ty::List(ext("deep"), Sizing::u8_bound()))),
            Field::unnamed(1, named("Next", Ty::List(ext("later"), Sizing::u8_bound()))),
        ])
        .unwrap(),
    );
    assert_eq!(
        TypeLib::try_from(&root).unwrap_err(),
        TranslateError::UnknownDependency(name("deep"))
    );
}
