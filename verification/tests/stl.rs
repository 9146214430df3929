use strict_encoding::stl::{Alpha, AlphaCaps, AlphaSmall, AsciiPrintable, Bool, Dec, HexDecSmall, U4};
use strict_encoding::{StrictSum, StrictType, LIB_NAME_STD};
use strict_types::ast::sten::StenType;
use strict_types::ast::ty::{Ty, Variant};
use strict_types::ord_map::OrdMap;
use strict_types::typelib::builder::LibBuilder;
use strict_types::typelib::type_lib::TypeLib;
use strict_types::util::Ident;

fn describe<T: StrictSum>() -> StenType {
    let name = Ident::try_from(String::from(T::strict_name().unwrap())).unwrap();
    let variants = T::ALL_VARIANTS
        .iter()
        .map(|(ord, variant)| Variant::named(Ident::try_from(variant.to_string()).unwrap(), *ord))
        .collect();
    StenType::Named(name, Box::new(Ty::enumerate(variants).unwrap()))
}

fn std_types() -> Vec<StenType> {
    vec![
        describe::<Bool>(),
        describe::<Dec>(),
        describe::<AlphaSmall>(),
        describe::<HexDecSmall>(),
    ]
}

fn capitals_are_named_with_underscores<T: StrictSum>() -> bool {
    T::ALL_VARIANTS
        .iter()
        .any(|(_, name)| name.starts_with('_') && Ident::try_from(name.to_string()).is_err())
}

fn library(types: Vec<StenType>) -> TypeLib {
    let mut builder = LibBuilder::new(Ident::from_str(LIB_NAME_STD), OrdMap::new());
    for ty in &types {
        builder = builder.transpile(ty).unwrap();
    }
    builder.compile().unwrap()
}

#[test]
fn library_of_character_classes() {
    let lib = library(std_types());
    assert_eq!(lib.name().as_str(), "Std");
    assert_eq!(lib.types().len(), 4);
    assert_eq!(lib.types().entry(0).key.as_str(), "AlphaSmall");
    let text = lib.to_string();
    assert!(text.starts_with("typemod Std\n\n-- no dependencies\n\ndata AlphaSmall       :: (a | b | "));
    assert!(text.contains("\ndata Bool             :: (false | true)\n"));
    // the identifier does not depend on the order in which the types go in
    let mut reversed = std_types();
    reversed.reverse();
    assert_eq!(library(reversed).id(), lib.id());
}

#[test]
fn names_of_capitals_are_no_identifiers() {
    // the variants that stand for capital letters begin with an underscore, which no name of
    // this library may
    assert!(capitals_are_named_with_underscores::<Alpha>());
    assert!(capitals_are_named_with_underscores::<AlphaCaps>());
    assert!(capitals_are_named_with_underscores::<AsciiPrintable>());
    assert!(!U4::ALL_VARIANTS.is_empty());
    assert_eq!(<Bool as StrictType>::STRICT_LIB_NAME, LIB_NAME_STD);
}
