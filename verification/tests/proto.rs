use netscope::dissect::proto::{inet_checksum, NameList};

#[test]
fn checksum_of_valid_header_is_zero() {
    let hdr: [u8; 20] = [
        0x45, 0x00, 0x00, 0x73, 0x00, 0x00, 0x40, 0x00, 0x40, 0x11, 0xb8, 0x61, 0xc0, 0xa8,
        0x00, 0x01, 0xc0, 0xa8, 0x00, 0xc7,
    ];
    assert_eq!(inet_checksum(&[&hdr]), 0);
    let mut zeroed = hdr;
    zeroed[10] = 0;
    zeroed[11] = 0;
    assert_eq!(inet_checksum(&[&zeroed]), 0xb861);
    // Splitting across parts at an odd boundary gives the same result.
    assert_eq!(inet_checksum(&[&zeroed[..3], &zeroed[3..]]), 0xb861);
}

#[test]
fn joins_and_truncates() {
    let mut n = NameList::new();
    assert!(n.is_empty());
    n.push("SYN");
    n.push("ACK");
    assert_eq!(n.as_str(), "SYN, ACK");
    let mut n = NameList::new();
    for _ in 0..40 {
        n.push("LONGNAME");
    }
    assert_eq!(n.as_str().len(), 96);
}

#[test]
fn a_list_shows_every_name_that_fits() {
    let names = ["FIN", "SYN", "RST", "PSH", "ACK", "URG"];
    let mut n = NameList::new();
    for name in names {
        n.push(name);
    }
    assert!(!n.is_empty());
    assert_eq!(n.as_str(), names.join(", "));
}

#[test]
fn a_list_cut_inside_a_character_shows_nothing() {
    let mut n = NameList::new();
    n.push(&"a".repeat(95));
    assert_eq!(n.as_str().len(), 95);
    n.push("b");
    assert_eq!(n.as_str().len(), 96);
    let mut n = NameList::new();
    n.push(&"a".repeat(93));
    n.push("\u{2713}");
    assert_eq!(n.as_str(), "");
}
