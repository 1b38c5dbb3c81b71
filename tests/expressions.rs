use spdx::ast::{
    AndExpr, CompoundExpr, LicenseExceptionId, LicenseExpr, LicenseId, LicenseRef, OrExpr,
    ParenExpr, SimpleExpr, SimpleExprWithException,
};
use spdx::parser::{parse, ParseError};

#[test]
fn test_roundtrip_simple_0() {
    let s = "CDDL-1.0";
    assert_eq!(s.parse::<LicenseExpr>().unwrap().to_string(), s)
}

#[test]
fn test_roundtrip_simple_1() {
    let s = "CDDL-1.0+";
    assert_eq!(s.parse::<LicenseExpr>().unwrap().to_string(), s)
}

#[test]
fn test_roundtrip_simple_2() {
    let s = "LicenseRef-23";
    assert_eq!(s.parse::<LicenseExpr>().unwrap().to_string(), s)
}

#[test]
fn test_roundtrip_simple_3() {
    let s = "LicenseRef-MIT-Style-1";
    assert_eq!(s.parse::<LicenseExpr>().unwrap().to_string(), s)
}

#[test]
fn test_roundtrip_simple_4() {
    let s = "DocumentRef-spdx-tool-1.2:LicenseRef-MIT-Style-2";
    assert_eq!(s.parse::<LicenseExpr>().unwrap().to_string(), s)
}

#[test]
fn test_roundtrip_composite_or_0() {
    let s = "LGPL-2.1-only OR MIT";
    assert_eq!(s.parse::<LicenseExpr>().unwrap().to_string(), s)
}

#[test]
fn test_roundtrip_composite_or_1() {
    let s = "LGPL-2.1-only OR MIT OR BSD-3-Clause";
    assert_eq!(s.parse::<LicenseExpr>().unwrap().to_string(), s)
}

#[test]
fn test_roundtrip_composite_or_2() {
    let s = "MIT/ Apache-2.0";
    assert_eq!(
        "MIT OR Apache-2.0",
        s.parse::<LicenseExpr>().unwrap().to_string()
    )
}

#[test]
fn test_roundtrip_composite_and_0() {
    let s = "LGPL-2.1-only AND MIT";
    assert_eq!(s.parse::<LicenseExpr>().unwrap().to_string(), s)
}

#[test]
fn test_roundtrip_composite_and_1() {
    let s = "LGPL-2.1-only AND MIT AND BSD-2-Clause";
    assert_eq!(s.parse::<LicenseExpr>().unwrap().to_string(), s)
}

#[test]
fn test_roundtrip_composite_exception_with_0() {
    let s = "GPL-2.0-or-later WITH Bison-exception-2.2";
    assert_eq!(s.parse::<LicenseExpr>().unwrap().to_string(), s)
}

#[test]
fn test_roundtrip_composite_parens_0() {
    let s = "MIT AND (LGPL-2.1-or-later OR BSD-3-Clause)";
    assert_eq!(s.parse::<LicenseExpr>().unwrap().to_string(), s)
}

#[test]
fn test_missing_document_ref_suffix_0() {
    let s = "DocumentRef-:LicenseRef-MIT-style-2";
    assert!(matches!(s.parse::<LicenseExpr>(), Err(_)))
}

#[test]
fn test_missing_license_ref_suffix_0() {
    let s = "DocumentRef-spdx-tool-1.2:LicenseRef-";
    assert!(matches!(s.parse::<LicenseExpr>(), Err(_)))
}

#[test]
fn test_malformed_document_ref_0() {
    let s = "DocumenRef-spdx-tool-1.2:LicenseRef-MIT-style-2";
    assert!(matches!(s.parse::<LicenseExpr>(), Err(_)))
}

#[test]
fn test_malformed_license_ref_0() {
    let s = "DocumentRef-spdx-tool-1.2:LicenceRef-MIT-style-2";
    assert!(matches!(s.parse::<LicenseExpr>(), Err(_)))
}

fn id(s: &str, plus: bool) -> CompoundExpr {
    CompoundExpr::SimpleExpr(SimpleExpr::LicenseId(LicenseId { id: s.to_string(), plus }))
}

#[test]
fn paren_nests_or_inside_and() {
    let e = parse("MIT AND (LGPL-2.1-or-later OR BSD-3-Clause)").unwrap();
    let expected = LicenseExpr::CompoundExpr(CompoundExpr::AndExpr(AndExpr {
        lexpr: Box::new(id("MIT", false)),
        rexpr: Box::new(CompoundExpr::ParenExpr(ParenExpr {
            expr: Box::new(CompoundExpr::OrExpr(OrExpr {
                lexpr: Box::new(id("LGPL-2.1-or-later", false)),
                rexpr: Box::new(id("BSD-3-Clause", false)),
            })),
        })),
    }));
    assert_eq!(e, expected);
}

#[test]
fn or_is_left_associative() {
    let e = parse("A OR B OR C").unwrap();
    let expected = LicenseExpr::CompoundExpr(CompoundExpr::OrExpr(OrExpr {
        lexpr: Box::new(CompoundExpr::OrExpr(OrExpr {
            lexpr: Box::new(id("A", false)),
            rexpr: Box::new(id("B", false)),
        })),
        rexpr: Box::new(id("C", false)),
    }));
    assert_eq!(e, expected);
}

#[test]
fn and_binds_tighter_than_or() {
    let e = parse("A OR B AND C").unwrap();
    let expected = LicenseExpr::CompoundExpr(CompoundExpr::OrExpr(OrExpr {
        lexpr: Box::new(id("A", false)),
        rexpr: Box::new(CompoundExpr::AndExpr(AndExpr {
            lexpr: Box::new(id("B", false)),
            rexpr: Box::new(id("C", false)),
        })),
    }));
    assert_eq!(e, expected);
}

#[test]
fn with_makes_one_leaf() {
    let e = parse("GPL-2.0-or-later WITH Bison-exception-2.2").unwrap();
    let expected = LicenseExpr::CompoundExpr(CompoundExpr::SimpleExprWithException(
        SimpleExprWithException {
            expr: SimpleExpr::LicenseId(LicenseId { id: "GPL-2.0-or-later".to_string(), plus: false }),
            license_exception_id: LicenseExceptionId { id: "Bison-exception-2.2".to_string() },
        },
    ));
    assert_eq!(e, expected);
    assert_eq!(e.to_string(), "GPL-2.0-or-later WITH Bison-exception-2.2");
}

#[test]
fn with_binds_tighter_than_and() {
    let e = parse("MIT AND GPL-2.0 WITH Classpath-exception-2.0").unwrap();
    match e {
        LicenseExpr::CompoundExpr(CompoundExpr::AndExpr(a)) => {
            assert!(matches!(*a.rexpr, CompoundExpr::SimpleExprWithException(_)));
        }
        _ => panic!("expected a conjunction"),
    }
}

#[test]
fn plus_sets_the_flag() {
    let e = parse("CDDL-1.0+").unwrap();
    assert_eq!(
        e,
        LicenseExpr::SimpleExpr(SimpleExpr::LicenseId(LicenseId { id: "CDDL-1.0".to_string(), plus: true }))
    );
    assert_eq!(e.to_string(), "CDDL-1.0+");
}

#[test]
fn document_ref_is_one_leaf() {
    let e = parse("DocumentRef-spdx-tool-1.2:LicenseRef-MIT-Style-2").unwrap();
    assert_eq!(
        e,
        LicenseExpr::SimpleExpr(SimpleExpr::LicenseRef(LicenseRef {
            license_ref: "MIT-Style-2".to_string(),
            document_ref: Some("spdx-tool-1.2".to_string()),
        }))
    );
}

#[test]
fn reference_errors_are_positioned() {
    assert_eq!(parse("DocumentRef-:LicenseRef-MIT-style-2"), Err(ParseError::Lexical { position: 12 }));
    assert_eq!(parse("DocumentRef-spdx-tool-1.2:LicenseRef-"), Err(ParseError::Lexical { position: 37 }));
    assert_eq!(parse("DocumenRef-spdx-tool-1.2:LicenseRef-MIT-style-2"), Err(ParseError::Syntax { position: 24 }));
    assert_eq!(parse("DocumentRef-spdx-tool-1.2:LicenceRef-MIT-style-2"), Err(ParseError::Syntax { position: 26 }));
}

#[test]
fn misplaced_plus_and_odd_characters_are_lexical_errors() {
    assert_eq!(parse("MIT +"), Err(ParseError::Lexical { position: 4 }));
    assert_eq!(parse("LicenseRef-x+"), Err(ParseError::Lexical { position: 12 }));
    assert_eq!(parse("MIT & BSD"), Err(ParseError::Lexical { position: 4 }));
}

#[test]
fn syntax_errors_are_positioned() {
    assert_eq!(parse(""), Err(ParseError::Syntax { position: 0 }));
    assert_eq!(parse("MIT AND"), Err(ParseError::Syntax { position: 7 }));
    assert_eq!(parse("(MIT"), Err(ParseError::Syntax { position: 4 }));
    assert_eq!(parse("MIT)"), Err(ParseError::Syntax { position: 3 }));
    assert_eq!(parse("MIT WITH A+"), Err(ParseError::Syntax { position: 9 }));
    assert_eq!(parse("(A WITH B) WITH C"), Err(ParseError::Syntax { position: 11 }));
    assert_eq!(parse("MIT BSD"), Err(ParseError::Syntax { position: 4 }));
}

#[test]
fn keywords_are_whole_words() {
    let e = parse("ANDROID OR WITHOUT").unwrap();
    assert_eq!(e.to_string(), "ANDROID OR WITHOUT");
    assert!(parse("and").is_ok());
}

#[test]
fn nesting_is_bounded() {
    let mut deep = String::new();
    for _ in 0..100 {
        deep.push('(');
    }
    deep.push_str("MIT");
    for _ in 0..100 {
        deep.push(')');
    }
    assert_eq!(parse(&deep).unwrap().to_string(), deep);
    let deeper = format!("({})", deep);
    assert_eq!(parse(&deeper), Err(ParseError::Syntax { position: 100 }));
}

#[test]
fn printing_is_idempotent() {
    for s in ["MIT/Apache-2.0 AND (BSD-2-Clause)", "  A   AND\tB  ", "((A))/B+"] {
        let once = parse(s).unwrap().to_string();
        let twice = parse(&once).unwrap().to_string();
        assert_eq!(once, twice);
    }
    assert_eq!(parse("((A))/B+").unwrap().to_string(), "((A)) OR B+");
}

#[test]
fn leaves_print_on_their_own() {
    let r = LicenseRef { license_ref: "x".to_string(), document_ref: Some("d".to_string()) };
    assert_eq!(r.to_string(), "DocumentRef-d:LicenseRef-x");
    let r = LicenseRef { license_ref: "x".to_string(), document_ref: None };
    assert_eq!(r.to_string(), "LicenseRef-x");
    assert_eq!(LicenseExceptionId { id: "E".to_string() }.to_string(), "E");
    assert_eq!(LicenseId { id: "A".to_string(), plus: true }.to_string(), "A+");
    let p = ParenExpr { expr: Box::new(id("A", false)) };
    assert_eq!(p.to_string(), "(A)");
}

#[test]
fn identifiers_are_listed_left_to_right() {
    let e = parse("MIT AND (GPL-2.0+ WITH Classpath-exception-2.0 OR LicenseRef-x) / Apache-2.0").unwrap();
    let (licenses, exceptions) = e.identifiers();
    assert_eq!(licenses, vec!["MIT".to_string(), "GPL-2.0".to_string(), "Apache-2.0".to_string()]);
    assert_eq!(exceptions, vec!["Classpath-exception-2.0".to_string()]);
    let (licenses, exceptions) = parse("LicenseRef-x").unwrap().identifiers();
    assert!(licenses.is_empty() && exceptions.is_empty());
}
