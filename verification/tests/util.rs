use strict_types::util::{
    ConfinementError,
    BuildFragment, Ident, InvalidIdent, PreFragment, SemVer, Sizing,
};

#[test]
fn ident_accepts_valid_names() {
    for name in ["a", "Foo", "foo_bar", "A1", "x_", "abcdefghijklmnopqrstuvwxyzABCDEF"] {
        let id = Ident::try_from(name.to_string()).unwrap();
        assert_eq!(id.to_string(), name);
        assert_eq!(id.as_str(), name);
        assert_eq!(id.len() as usize, name.len());
    }
}

#[test]
fn ident_rejects_empty() {
    assert_eq!(Ident::try_from(String::new()), Err(InvalidIdent::Empty));
}

#[test]
fn ident_rejects_first_non_letter() {
    assert_eq!(Ident::try_from("1abc".to_string()), Err(InvalidIdent::NonAlphabetic('1')));
    assert_eq!(Ident::try_from("_abc".to_string()), Err(InvalidIdent::NonAlphabetic('_')));
}

#[test]
fn ident_rejects_first_invalid_char() {
    assert_eq!(Ident::try_from("ab-c?d".to_string()), Err(InvalidIdent::InvalidChar('-')));
    assert_eq!(Ident::try_from("a b".to_string()), Err(InvalidIdent::InvalidChar(' ')));
}

#[test]
fn ident_rejects_non_ascii() {
    assert_eq!(Ident::try_from("caf\u{e9}".to_string()), Err(InvalidIdent::NonAscii));
    assert_eq!(Ident::try_from("\u{e9}".to_string()), Err(InvalidIdent::NonAscii));
}

#[test]
fn ident_rejects_long_names() {
    let long = "a".repeat(33);
    assert_eq!(Ident::try_from(long), Err(InvalidIdent::LengthOutOfRange));
    // an invalid character is reported before the length
    let long = format!("{}-", "a".repeat(40));
    assert_eq!(Ident::try_from(long), Err(InvalidIdent::InvalidChar('-')));
}

#[test]
fn ident_order_is_bytewise() {
    let a = Ident::from_str("Alpha");
    let b = Ident::from_str("Beta");
    let ab = Ident::from_str("Alphabet");
    let lower = Ident::from_str("alpha");
    assert!(a.less(&b));
    assert!(!b.less(&a));
    assert!(a.less(&ab));
    assert!(!ab.less(&a));
    assert!(!a.less(&a));
    assert!(b.less(&lower));
    assert!(a.same(&Ident::from_str("Alpha")));
    assert!(!a.same(&b));
    assert_eq!(a.less(&b), a < b);
    assert_eq!(a.less(&ab), a < ab);
    assert_eq!(lower.less(&b), lower < b);
}

#[test]
fn ident_clone_is_equal() {
    let a = Ident::from_str("Name");
    assert_eq!(a.clone(), a);
}

#[test]
fn sizing_constructors() {
    assert_eq!(Sizing::new(2, 7), Sizing { min: 2, max: 7 });
    assert_eq!(Sizing::fixed(4), Sizing { min: 4, max: 4 });
    assert_eq!(Sizing::one(), Sizing { min: 1, max: 1 });
    assert_eq!(Sizing::u8_bound(), Sizing { min: 0, max: 255 });
    assert_eq!(Sizing::u16_bound(), Sizing { min: 0, max: 65535 });
    assert_eq!(Sizing::u8_nonempty(), Sizing { min: 1, max: 255 });
    assert_eq!(Sizing::u16_nonempty(), Sizing { min: 1, max: 65535 });
}

#[test]
fn sizing_suffix() {
    assert_eq!(Sizing::new(0, u16::MAX).to_string(), "");
    assert_eq!(Sizing::new(0, 255).to_string(), " ^ ..255");
    assert_eq!(Sizing::new(0, 0).to_string(), " ^ ..0");
    assert_eq!(Sizing::new(1, u16::MAX).to_string(), " ^ 1..");
    assert_eq!(Sizing::new(1, 255).to_string(), " ^ 1..0xff");
    assert_eq!(Sizing::new(2, 5).to_string(), " ^ 2..0x05");
    assert_eq!(Sizing::new(10, 4096).to_string(), " ^ 10..0x1000");
    assert_eq!(Sizing::new(1, 1).to_string(), " ^ 1..0x01");
}

#[test]
fn sizing_suffix_matches_std_formatting() {
    for (min, max) in [(1u16, 2u16), (3, 16), (7, 300), (65534, 65534), (12, 0xabc)] {
        assert_eq!(Sizing::new(min, max).to_string(), format!(" ^ {}..{:#04x}", min, max));
    }
}

#[test]
fn semver_text() {
    let mut ver = SemVer::new(1, 20, 300);
    assert_eq!(ver.to_string(), "1.20.300");
    ver.build.push(BuildFragment::Ident(Ident::from_str("nightly"))).unwrap();
    ver.build.push(BuildFragment::Digits(Ident::from_str("b7"))).unwrap();
    assert_eq!(ver.to_string(), "1.20.300-nightly.b7");
    ver.pre.push(PreFragment::Ident(Ident::from_str("rc"))).unwrap();
    ver.pre.push(PreFragment::Digits(340282366920938463463374607431768211455)).unwrap();
    ver.pre.push(PreFragment::Digits(0)).unwrap();
    assert_eq!(
        ver.to_string(),
        "1.20.300-nightly.b7+rc.340282366920938463463374607431768211455.0"
    );
    let mut only_pre = SemVer::new(0, 0, 0);
    only_pre.pre.push(PreFragment::Digits(42)).unwrap();
    assert_eq!(only_pre.to_string(), "0.0.0+42");
}

#[test]
fn semver_fragments_are_capped() {
    let mut ver = SemVer::new(1, 0, 0);
    for i in 0..255u128 {
        assert_eq!(ver.push_pre(PreFragment::Digits(i)), Ok(()));
        assert_eq!(ver.push_build(BuildFragment::Ident(Ident::from_str("b"))), Ok(()));
    }
    assert_eq!(
        ver.push_pre(PreFragment::Digits(0)),
        Err(ConfinementError::Oversize { len: 256, max_len: 255 })
    );
    assert_eq!(
        ver.push_build(BuildFragment::Ident(Ident::from_str("b"))),
        Err(ConfinementError::Oversize { len: 256, max_len: 255 })
    );
    assert_eq!(ver.pre.len(), 255);
    assert_eq!(ver.build.len(), 255);
}

#[test]
fn semver_clone_is_equal() {
    let mut ver = SemVer::new(3, 2, 1);
    ver.push_pre(PreFragment::Ident(Ident::from_str("beta"))).unwrap();
    ver.push_build(BuildFragment::Digits(Ident::from_str("x9"))).unwrap();
    let copy = ver.clone();
    assert_eq!(copy, ver);
    assert_eq!(copy.to_string(), "3.2.1-x9+beta");
    assert_eq!(copy.pre.len(), 1);
    assert_eq!(copy.build.iter().len(), 1);
}
