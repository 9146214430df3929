use strict_types::schema::{PrimitiveType, StructField, StructType, TypeDecl, TypeRef, TypeSystem};

fn type_system() -> TypeSystem {
    TypeSystem(vec![
        TypeDecl::new(
            "Transaction",
            StructType(vec![
                StructField::primitive(PrimitiveType::U32),
                StructField::list(TypeRef::named("Input")),
                StructField::list(TypeRef::named("Output")),
                StructField::primitive(PrimitiveType::U32),
            ]),
        ),
        TypeDecl::new(
            "Input",
            StructType(vec![
                StructField::new("OutPoint"),
                StructField::primitive(PrimitiveType::Bytes),
                StructField::new("Witness"),
            ]),
        ),
        TypeDecl::new(
            "Output",
            StructType(vec![
                StructField::primitive(PrimitiveType::U64),
                StructField::primitive(PrimitiveType::Bytes),
            ]),
        ),
        TypeDecl::new(
            "OutPoint",
            StructType(vec![
                StructField::array(PrimitiveType::U8, 32),
                StructField::primitive(PrimitiveType::U16),
            ]),
        ),
        TypeDecl::new(
            "Witness",
            StructType(vec![StructField::list(TypeRef::Primitive(PrimitiveType::Bytes))]),
        ),
    ])
}

#[test]
fn display() {
    println!("{}", type_system().to_string());
}

#[test]
fn type_system_text() {
    assert_eq!(
        type_system().to_string(),
        "Transaction :: U32, Input*, Output*, U32\n\
         Input :: OutPoint, Bytes, Witness\n\
         Output :: U64, Bytes\n\
         OutPoint :: U8[32], U16\n\
         Witness :: Bytes*\n"
    );
}
