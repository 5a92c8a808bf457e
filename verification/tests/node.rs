use netscope::dissect::node::{fmt_ipv4, fmt_mac, Node, Tree, TreeNode, Value};
use netscope::dissect::registry::{all, field_id_if_known, Interner};

fn sample() -> Tree {
    let leaf = Node::new("tcp.srcport", 4..6, Value::Unsigned(443));
    let flag = Node::new("tcp.flags.syn", 2..4, Value::Bool(true));
    let flags = Node::new("tcp.flags", 2..4, Value::Unsigned(2)).with_children(vec![flag]);
    let tcp = Node::new("tcp", 0..10, Value::Empty).with_children(vec![leaf, flags]);
    let eth = Node::new("eth", 0..14, Value::Empty).with_children(vec![Node::new(
        "eth.src",
        6..12,
        Value::Mac([1, 2, 3, 4, 5, 6]),
    )]);
    Tree::from_layers(&[eth, tcp])
}

#[test]
fn flattens_depth_first_with_structure() {
    let t = sample();
    let order: Vec<(&str, u8)> = t.iter().into_iter().map(|n| (n.abbrev(), n.depth())).collect();
    assert_eq!(
        order,
        [
            ("eth", 0),
            ("eth.src", 1),
            ("tcp", 0),
            ("tcp.srcport", 1),
            ("tcp.flags", 1),
            ("tcp.flags.syn", 2)
        ]
    );
    let tcp = t.get(2).unwrap();
    let kids: Vec<&str> = tcp.children().into_iter().map(|c| c.abbrev()).collect();
    assert_eq!(kids, ["tcp.srcport", "tcp.flags"]);
    assert_eq!(tcp.subtree_end(), 6);
    assert!(tcp.has_children());
    assert!(!t.get(3).unwrap().has_children());
    assert_eq!(
        tcp.child("tcp.srcport").and_then(|n| n.unsigned()),
        Some(443)
    );
}

#[test]
fn values_round_trip() {
    let nodes = vec![
        Node::new("dns.qry.name", 0..3, Value::Str("example.com".into())).with_text("hello".to_string()),
        Node::new("ipv6.src", 0..16, Value::Ipv6([1; 16])),
        Node::new("ip.ttl", 0..1, Value::Signed(-5)),
        Node::new("data.data", 0..4, Value::Bytes),
    ];
    let t = Tree::from_layers(&nodes);
    assert_eq!(t.get(0).unwrap().value(), Value::Str("example.com".into()));
    assert_eq!(t.get(0).unwrap().str_value(), Some("example.com"));
    assert_eq!(t.get(0).unwrap().text(), Some("hello"));
    assert_eq!(t.get(1).unwrap().value(), Value::Ipv6([1; 16]));
    assert_eq!(t.get(2).unwrap().value(), Value::Signed(-5));
    assert_eq!(t.get(3).unwrap().value(), Value::Bytes);
    assert_eq!(t.get(3).unwrap().range(), 0..4);
    assert_eq!(std::mem::size_of::<TreeNode>(), 28);
}

#[test]
fn innermost_prefers_deepest_then_smallest() {
    let t = sample();
    assert_eq!(
        t.innermost_at(0, 3).map(|n| n.abbrev()),
        Some("tcp.flags.syn")
    );
    assert_eq!(
        t.innermost_at(0, 5).map(|n| n.abbrev()),
        Some("tcp.srcport")
    );
    assert_eq!(t.innermost_at(0, 8).map(|n| n.abbrev()), Some("eth.src"));
    assert_eq!(t.innermost_at(0, 13).map(|n| n.abbrev()), Some("eth"));
    assert!(t.innermost_at(0, 14).is_none());
    assert!(t.innermost_at(1, 3).is_none());
}

#[test]
fn address_formatters() {
    assert_eq!(fmt_mac([0xde, 0xad, 0xbe, 0xef, 0, 1]), "de:ad:be:ef:00:01");
    assert_eq!(fmt_ipv4([10, 0, 0, 1]), "10.0.0.1");
    assert_eq!(fmt_ipv4([255, 100, 9, 0]), "255.100.9.0");
    assert_eq!(Value::Ipv6([0; 16]).text(), "::");
}

#[test]
fn field_ids_are_those_of_the_names() {
    let names = Interner::new();
    for n in sample().iter() {
        let id = field_id_if_known(&names, n.abbrev());
        assert_eq!(Some(n.field_id()), id, "{}", n.abbrev());
        assert_eq!(all()[usize::from(n.field_id())].abbrev, n.abbrev());
    }
    // Names that are not registered come behind the table, in the order they
    // are met, and each has one id.
    let first = all().len() as u16;
    let t = Tree::from_layers(&[
        Node::new("zz.one", 0..1, Value::Empty),
        Node::new("zz.two", 1..2, Value::Empty),
        Node::new("tcp", 2..3, Value::Empty),
        Node::new("zz.one", 3..4, Value::Empty),
    ]);
    let ids: Vec<u16> = t.iter().into_iter().map(|n| n.field_id()).collect();
    assert_eq!(ids[0], first);
    assert_eq!(ids[1], first + 1);
    assert!(ids[2] < first);
    assert_eq!(ids[3], first);
}

#[test]
fn one_unregistered_name_may_stand_in_many_rows() {
    let rows: Vec<Node> = (0..70_000)
        .map(|i| {
            Node::new("zz.often", i..i + 1, Value::Unsigned(i as u64))
                .with_text("row".to_string())
        })
        .collect();
    let t = Tree::from_layers(&rows);
    assert_eq!(t.len(), 70_000);
    for at in [0usize, 65_139, 65_535, 69_999] {
        let n = t.get(at).unwrap();
        assert_eq!(n.abbrev(), "zz.often");
        assert_eq!(n.value(), Value::Unsigned(at as u64));
        assert_eq!(n.text(), Some("row"));
        assert_eq!(n.range(), at..at + 1);
    }
}

#[test]
fn a_tree_holds_its_rows_and_its_strings() {
    assert_eq!(sample().approx_size(), 6 * 28);
    let t = Tree::from_layers(&[
        Node::new("dns.qry.name", 0..3, Value::Str("example.com".into()))
            .with_text("hello".to_string()),
        Node::new("ipv6.src", 0..16, Value::Ipv6([1; 16])),
    ]);
    assert_eq!(t.approx_size(), 2 * 28 + 11 + 5 + 16);
    assert_eq!(t.copied().approx_size(), t.approx_size());
}
