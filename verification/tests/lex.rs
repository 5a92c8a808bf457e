use netscope::filter::lex::{lex, Tok};

fn toks(s: &str) -> Vec<Tok> {
    lex(s).expect("lex").into_iter().map(|t| t.tok).collect()
}

#[test]
fn fields_operators_and_numbers() {
    assert_eq!(
        toks("tcp.port==443"),
        [Tok::Field("tcp.port".into()), Tok::Eq, Tok::Number(443)]
    );
    assert_eq!(
        toks("ip.ttl >= 0x40 && !tcp"),
        [
            Tok::Field("ip.ttl".into()),
            Tok::Ge,
            Tok::Number(0x40),
            Tok::And,
            Tok::Not,
            Tok::Field("tcp".into())
        ]
    );
    assert_eq!(
        toks("frame.len < -1"),
        [Tok::Field("frame.len".into()), Tok::Lt, Tok::Signed(-1)]
    );
}

#[test]
fn address_literals() {
    assert_eq!(toks("10.0.0.1"), [Tok::Ipv4([10, 0, 0, 1])]);
    assert_eq!(toks("10.0.0.0/8"), [Tok::Ipv4Cidr([10, 0, 0, 0], 8)]);
    assert_eq!(
        toks("aa:bb:cc:dd:ee:ff"),
        [Tok::Bytes(vec![0xaa, 0xbb, 0xcc, 0xdd, 0xee, 0xff])]
    );
    assert_eq!(toks("aa:bb:cc"), [Tok::Bytes(vec![0xaa, 0xbb, 0xcc])]);
    let Tok::Ipv6(a) = &toks("2001:db8::1")[0] else {
        panic!("expected IPv6");
    };
    assert_eq!(a[0..2], [0x20, 0x01]);
    assert!(matches!(toks("fe80::/10")[0], Tok::Ipv6Cidr(_, 10)));
}

#[test]
fn strings_and_escapes() {
    assert_eq!(toks(r#""hello""#), [Tok::Str("hello".into())]);
    assert_eq!(toks(r#"'a b'"#), [Tok::Str("a b".into())]);
    assert_eq!(toks(r#""a\nb""#), [Tok::Str("a\nb".into())]);
    assert_eq!(toks(r#""\x41""#), [Tok::Str("A".into())]);
    assert_eq!(toks(r#""say \"hi\"""#), [Tok::Str("say \"hi\"".into())]);
}

#[test]
fn slices_and_sets() {
    assert_eq!(
        toks("eth.src[0:3]"),
        [
            Tok::Field("eth.src".into()),
            Tok::LBracket,
            Tok::Number(0),
            Tok::Colon,
            Tok::Number(3),
            Tok::RBracket
        ]
    );
    assert_eq!(
        toks("tcp.port in {80,443}"),
        [
            Tok::Field("tcp.port".into()),
            Tok::In,
            Tok::LBrace,
            Tok::Number(80),
            Tok::Comma,
            Tok::Number(443),
            Tok::RBrace
        ]
    );
}

#[test]
fn errors_carry_a_column() {
    let e = lex("tcp.port = 443").expect_err("should fail");
    assert_eq!(e.column, 9);
    assert!(e.message.contains("=="), "{}", e.message);
    let e = lex("tcp && \"unterminated").expect_err("should fail");
    assert_eq!(e.column, 7);
    let e = lex("ip.src == 10.0.0.1 & 1").expect_err("should fail");
    assert_eq!(e.column, 19);
    let e = lex("tcp.port == 99999999999999999999999").expect_err("should fail");
    assert!(e.message.contains("too large"), "{}", e.message);
}

#[test]
fn hex_pairs_are_bytes_however_many_there_are() {
    let pairs = lex("00:11:22:33:44:55:66:77").expect("lex");
    assert_eq!(pairs.len(), 1);
    assert_eq!(
        pairs[0].tok,
        Tok::Bytes(vec![0x00, 0x11, 0x22, 0x33, 0x44, 0x55, 0x66, 0x77])
    );
    assert_eq!(pairs[0].span, 0..23);
    // One group of another width makes it an address.
    assert!(matches!(
        toks("0:11:22:33:44:55:66:77")[..],
        [Tok::Ipv6(_)]
    ));
}
