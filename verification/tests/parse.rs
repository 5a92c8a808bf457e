use netscope::filter::ast::{CmpOp, Expr, FieldRef, Literal, Slice};
use netscope::filter::parse;

fn field(e: &Expr) -> &FieldRef {
    match e {
        Expr::Present(f) | Expr::Compare { field: f, .. } | Expr::In { field: f, .. } => f,
        _ => panic!("not a leaf"),
    }
}

#[test]
fn presence_and_comparison() {
    let e = parse("tcp").expect("parse");
    assert_eq!(field(&e).name, "tcp");
    let e = parse("tcp.port == 443").expect("parse");
    match &e {
        Expr::Compare { field, op, value } => {
            assert_eq!(field.name, "tcp.port");
            assert_eq!(*op, CmpOp::Eq);
            assert_eq!(value.value, Literal::Unsigned(443));
        }
        other => panic!("{other:?}"),
    }
}

#[test]
fn precedence_is_or_then_and_then_not() {
    // a || b && c parses as a || (b && c)
    let e = parse("arp || tcp && udp").expect("parse");
    match e {
        Expr::Or(l, r) => {
            assert_eq!(field(&l).name, "arp");
            assert!(matches!(*r, Expr::And(..)));
        }
        other => panic!("{other:?}"),
    }
    // !a && b parses as (!a) && b
    let e = parse("!arp && tcp").expect("parse");
    match e {
        Expr::And(l, r) => {
            assert!(matches!(*l, Expr::Not(_)));
            assert_eq!(field(&r).name, "tcp");
        }
        other => panic!("{other:?}"),
    }
    // Parentheses override.
    let e = parse("(arp || tcp) && udp").expect("parse");
    assert!(matches!(e, Expr::And(..)));
    // `!` binds tighter than a comparison's operands are consumed.
    let e = parse("!(tcp.port == 443)").expect("parse");
    assert!(matches!(e, Expr::Not(_)));
}

#[test]
fn word_operators_are_accepted() {
    assert!(matches!(parse("arp or tcp").expect("parse"), Expr::Or(..)));
    assert!(matches!(
        parse("arp and tcp").expect("parse"),
        Expr::And(..)
    ));
    assert!(matches!(parse("not arp").expect("parse"), Expr::Not(_)));
}

#[test]
fn slices_parse_in_every_form() {
    let s = |text: &str| field(&parse(text).expect("parse")).slice;
    assert_eq!(
        s("eth.src[0]"),
        Some(Slice {
            offset: 0,
            len: Some(1)
        })
    );
    assert_eq!(
        s("eth.src[0:3]"),
        Some(Slice {
            offset: 0,
            len: Some(3)
        })
    );
    assert_eq!(
        s("eth.src[2:]"),
        Some(Slice {
            offset: 2,
            len: None
        })
    );
    assert_eq!(
        s("eth.src[:4]"),
        Some(Slice {
            offset: 0,
            len: Some(4)
        })
    );
    assert_eq!(s("eth.src"), None);
}

#[test]
fn sets_parse() {
    let e = parse("tcp.port in {80, 443, 8080}").expect("parse");
    match e {
        Expr::In { field, values } => {
            assert_eq!(field.name, "tcp.port");
            assert_eq!(values.len(), 3);
            assert_eq!(values[2].value, Literal::Unsigned(8080));
        }
        other => panic!("{other:?}"),
    }
}

#[test]
fn errors_point_at_the_right_column() {
    let e = parse("tcp.port ==").expect_err("should fail");
    assert!(e.message.contains("ends here"), "{}", e.message);
    assert_eq!(e.column, 11);

    let e = parse("(tcp").expect_err("should fail");
    assert!(e.message.contains("`)`"), "{}", e.message);

    let e = parse("443 == tcp.port").expect_err("should fail");
    assert_eq!(e.column, 0);
    assert!(e.message.contains("field name"), "{}", e.message);

    let e = parse("tcp.port == udp.port").expect_err("should fail");
    assert_eq!(e.column, 12);
    assert!(e.message.contains("two fields"), "{}", e.message);

    let e = parse("tcp udp").expect_err("should fail");
    assert_eq!(e.column, 4);
    assert!(e.message.contains("after the end"), "{}", e.message);

    let e = parse("tcp.port in 80").expect_err("should fail");
    assert!(e.message.contains("`{`"), "{}", e.message);

    let e = parse("").expect_err("should fail");
    assert!(e.message.contains("empty"), "{}", e.message);
}
