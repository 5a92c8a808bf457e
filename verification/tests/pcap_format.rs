use netscope::pcap::{sniff, Format, Precision, MAGIC_MICROS, MAGIC_MODIFIED, MAGIC_NANOS};

fn with_magic(m: [u8; 4]) -> Vec<u8> {
    let mut v = m.to_vec();
    v.extend_from_slice(&[0; 20]);
    v
}

#[test]
fn every_pcap_magic_is_recognised_either_way_round() {
    for magic in [MAGIC_MICROS, MAGIC_NANOS] {
        assert_eq!(sniff(&with_magic(magic.to_be_bytes())), Format::Pcap);
        assert_eq!(sniff(&with_magic(magic.to_le_bytes())), Format::Pcap);
    }
}

#[test]
fn pcapng_is_told_apart_from_pcap() {
    let shb = netscope::pcapng::BLOCK_SHB.to_be_bytes();
    assert_eq!(sniff(&with_magic(shb)), Format::Pcapng);
}

#[test]
fn the_modified_format_is_named_rather_than_misread() {
    // Reading it as ordinary pcap does not fail, it yields nonsense.
    assert_eq!(
        sniff(&with_magic(MAGIC_MODIFIED.to_be_bytes())),
        Format::PcapModified
    );
    assert_eq!(
        sniff(&with_magic(MAGIC_MODIFIED.to_le_bytes())),
        Format::PcapModified
    );
}

#[test]
fn anything_else_is_unknown_rather_than_guessed() {
    assert_eq!(sniff(b""), Format::Unknown);
    assert_eq!(sniff(b"\x00\x01"), Format::Unknown);
    assert_eq!(sniff(&with_magic(*b"RIFF")), Format::Unknown);
    assert_eq!(sniff(&with_magic([0; 4])), Format::Unknown);
}

#[test]
fn precision_and_magic_agree() {
    assert_eq!(Precision::Micro.magic(), MAGIC_MICROS);
    assert_eq!(Precision::Nano.magic(), MAGIC_NANOS);
    assert_eq!(Precision::Micro.per_sec(), 1_000_000);
    assert_eq!(Precision::Nano.per_sec(), 1_000_000_000);
}
