use netscope::dissect::node::{Tree, TreeBuilder, Value};
use netscope::dissect::registry::{
    all, field_abbrev, field_id, field_id_if_known, label, Interner,
};

#[test]
fn abbrevs_are_unique() {
    let mut seen = std::collections::HashSet::new();
    for d in all() {
        assert!(seen.insert(d.abbrev), "duplicate abbrev {}", d.abbrev);
    }
}

#[test]
fn ids_round_trip_and_unknowns_are_interned() {
    let mut names = Interner::new();
    let known = field_id(&mut names, "tcp.srcport");
    assert_eq!(field_abbrev(&names, known), "tcp.srcport");
    let id = field_id(&mut names, "zz.unknown.field");
    assert!(usize::from(id) >= all().len());
    assert_eq!(field_abbrev(&names, id), "zz.unknown.field");
    // A second lookup must return the same id.
    assert_eq!(field_id(&mut names, "zz.unknown.field"), id);
    assert_eq!(field_id_if_known(&names, "zz.never"), None);
    // A distinct allocation with the same content resolves identically.
    let same: &'static str = Box::leak("tcp.srcport".to_string().into_boxed_str());
    assert_eq!(field_id(&mut names, same), known);
}

fn build(write: impl FnOnce(&mut TreeBuilder)) -> Tree {
    let mut b = TreeBuilder::new();
    write(&mut b);
    b.finish()
}

fn leaf(abbrev: &'static str, range: std::ops::Range<usize>, value: Value) -> Tree {
    build(|b| {
        b.leaf(abbrev, 0, range, value);
    })
}

#[test]
fn labels_follow_kind() {
    let t = leaf("tcp.srcport", 34..36, Value::Unsigned(443));
    assert_eq!(label(&t.get(0).unwrap(), &[]), "Source Port: 443");
    let t = leaf("eth.type", 12..14, Value::Unsigned(0x0800));
    assert_eq!(label(&t.get(0).unwrap(), &[]), "Type: IPv4 (0x0800)");
    let t = leaf("ip.id", 18..20, Value::Unsigned(0x1c46));
    assert_eq!(
        label(&t.get(0).unwrap(), &[]),
        "Identification: 0x1c46 (7238)"
    );
    let t = leaf("tcp.flags.syn", 47..48, Value::Bool(true));
    assert_eq!(label(&t.get(0).unwrap(), &[]), "Syn: Set");
    let t = leaf("data.data", 1..3, Value::Bytes);
    assert_eq!(label(&t.get(0).unwrap(), &[0, 0xab, 0xcd]), "Data: abcd");
    let t = leaf("ip.checksum.status", 24..26, Value::Unsigned(1));
    assert_eq!(
        label(&t.get(0).unwrap(), &[]),
        "Header checksum status: Good"
    );
    let t = build(|b| {
        let id = b.leaf("tcp", 0, 0..0, Value::Empty);
        b.set_text(id, "TCP, Src Port: 1".to_string());
    });
    assert_eq!(label(&t.get(0).unwrap(), &[]), "TCP, Src Port: 1");
    let t = leaf("nope.field", 0..0, Value::Unsigned(1));
    assert_eq!(label(&t.get(0).unwrap(), &[]), "nope.field: 1");
}

#[test]
fn layer_labels_come_from_children() {
    let t = build(|b| {
        b.begin("eth", 0, 0..14);
        b.leaf("eth.dst", 0, 0..6, Value::Mac([0xff; 6]));
        b.leaf("eth.src", 0, 6..12, Value::Mac([1, 2, 3, 4, 5, 6]));
        b.end();
    });
    assert_eq!(
        label(&t.get(0).unwrap(), &[]),
        "Ethernet II, Src: 01:02:03:04:05:06, Dst: ff:ff:ff:ff:ff:ff"
    );
    let t = build(|b| {
        b.begin("arp", 0, 0..28);
        b.leaf("arp.opcode", 0, 6..8, Value::Unsigned(2));
        b.end();
    });
    assert_eq!(
        label(&t.get(0).unwrap(), &[]),
        "Address Resolution Protocol (reply)"
    );
}
