use netscope::filter::types::{compile, mask_v4, mask_v6, Operand, Test};
use netscope::filter::FilterError;

fn err(input: &str) -> FilterError {
    compile(input).expect_err("should not compile")
}

#[test]
fn well_typed_filters_compile() {
    for f in [
        "tcp",
        "tcp.port == 443",
        "ip.addr == 10.0.0.0/8",
        "ipv6.addr == fe80::/10",
        "eth.src == aa:bb:cc:dd:ee:ff",
        "eth.src[0:3] == aa:bb:cc",
        "dns.qry.name contains \"example\"",
        "dns.qry.name matches \"^www\\\\.\"",
        "tcp.flags.syn == true",
        "tcp.flags.syn == 1",
        "udp.port in {53, 5353}",
        "!(arp || icmp) && frame.len > 100",
        "ip.checksum.status == \"Good\"",
    ] {
        compile(f).unwrap_or_else(|e| panic!("{f}: {}", e.text()));
    }
}

#[test]
fn unknown_fields_are_rejected_with_a_suggestion() {
    let e = err("tcp.prot == 443");
    assert!(e.message.contains("unknown field"), "{}", e.message);
    assert!(e.message.contains("tcp.port"), "{}", e.message);
    assert_eq!(e.column, 0);
}

#[test]
fn operators_are_checked_against_the_field_type() {
    let e = err("tcp.flags.syn > 0");
    assert!(e.message.contains("cannot be used"), "{}", e.message);
    let e = err("ip.src contains \"10\"");
    assert!(e.message.contains("contains"), "{}", e.message);
    let e = err("ip.ttl matches \"6\"");
    assert!(e.message.contains("matches"), "{}", e.message);
    let e = err("ip.src > 10.0.0.1");
    assert!(e.message.contains("only `==` and `!=`"), "{}", e.message);
}

#[test]
fn literals_are_checked_against_the_field_type() {
    let e = err("tcp.port == \"http\"");
    assert!(e.message.contains("expected a number"), "{}", e.message);
    assert_eq!(e.column, 12);
    let e = err("ip.src == aa:bb:cc:dd:ee:ff");
    assert!(e.message.contains("IPv4"), "{}", e.message);
    let e = err("eth.src == 10.0.0.1");
    assert!(e.message.contains("MAC"), "{}", e.message);
    let e = err("tcp.port == -1");
    assert!(e.message.contains("unsigned"), "{}", e.message);
    let e = err("tcp.flags.syn == 7");
    assert!(e.message.contains("`true`"), "{}", e.message);
}

#[test]
fn protocols_cannot_be_compared() {
    let e = err("tcp == 1");
    assert!(e.message.contains("on its own"), "{}", e.message);
}

#[test]
fn slices_need_bytes_and_byte_literals() {
    let e = err("tcp.flags.syn[0] == aa:bb");
    assert!(e.message.contains("no bytes to slice"), "{}", e.message);
    let e = err("eth.src[0:3] == 443");
    assert!(e.message.contains("byte string"), "{}", e.message);
}

#[test]
fn bad_regexes_are_reported_at_the_pattern() {
    let e = err("dns.qry.name matches \"(\"");
    assert!(
        e.message.contains("invalid regular expression"),
        "{}",
        e.message
    );
    assert_eq!(e.column, 21);
    let e = err("dns.qry.name matches 5");
    assert!(
        e.message.contains("quoted regular expression"),
        "{}",
        e.message
    );
}

#[test]
fn cidr_masks_are_precomputed() {
    match compile("ip.addr == 10.1.2.3/8").expect("compile") {
        Test::Compare {
            value: Operand::Ipv4Net(net, mask),
            target,
            ..
        } => {
            assert_eq!(net, [10, 0, 0, 0], "host bits must be cleared");
            assert_eq!(mask, [255, 0, 0, 0]);
            assert_eq!(target.ids.len(), 2, "ip.addr covers src and dst");
        }
        other => panic!("{other:?}"),
    }
    assert_eq!(mask_v6(10)[..2], [0xff, 0xc0]);
    assert_eq!(mask_v4(0), [0, 0, 0, 0]);
    assert_eq!(mask_v4(32), [255, 255, 255, 255]);
}
