use netscope::dissect::Addr;
use netscope::store::conversations::{addr_key, ordered};

#[test]
fn endpoint_ordering_is_symmetric() {
    // Both directions must produce the same key, or a conversation shows
    // up as two rows that each know half the traffic.
    let a = Addr::Ipv4([10, 0, 0, 1]);
    let b = Addr::Ipv4([10, 0, 0, 2]);
    let (k1, f1) = ordered(a, 1000, b, 80, Some(0));
    let (k2, f2) = ordered(b, 80, a, 1000, Some(0));
    assert_eq!(k1, k2);
    assert_ne!(f1, f2, "and they must be recorded in opposite columns");
}

#[test]
fn the_same_addresses_on_different_ports_are_different_conversations() {
    let a = Addr::Ipv4([10, 0, 0, 1]);
    let b = Addr::Ipv4([10, 0, 0, 2]);
    assert_ne!(
        ordered(a, 1000, b, 80, Some(0)).0,
        ordered(a, 1001, b, 80, Some(1)).0
    );
}

#[test]
fn the_same_five_tuple_used_twice_gives_two_rows() {
    // Ports are reused. Adding a later connection's totals to an earlier
    // one's would describe traffic that never shared a conversation.
    let a = Addr::Ipv4([10, 0, 0, 1]);
    let b = Addr::Ipv4([10, 0, 0, 2]);
    assert_ne!(
        ordered(a, 1000, b, 80, Some(0)).0,
        ordered(a, 1000, b, 80, Some(2)).0
    );
}

#[test]
fn address_families_do_not_collide() {
    let v4 = Addr::Ipv4([0, 0, 0, 1]);
    let mac = Addr::Mac([0, 0, 0, 0, 0, 1]);
    assert_ne!(addr_key(v4), addr_key(mac));
}

