use netscope::dissect::proto::dns::read_name;

#[test]
fn reads_plain_and_compressed_names() {
    let mut m = vec![
        3, b'w', b'w', b'w', 7, b'e', b'x', b'a', b'm', b'p', b'l', b'e', 3, b'c', b'o', b'm',
        0,
    ];
    let base_len = m.len();
    m.extend_from_slice(&[4, b'm', b'a', b'i', b'l', 0xc0, 4]);
    assert_eq!(read_name(&m, 0), Ok(("www.example.com".into(), base_len)));
    assert_eq!(
        read_name(&m, base_len),
        Ok(("mail.example.com".into(), base_len + 7))
    );
}

#[test]
fn pointer_loops_are_rejected() {
    let m = [0xc0, 0x02, 0xc0, 0x00];
    assert!(read_name(&m, 0).is_err());
    // A backward pointer to a label that points back again.
    let m2 = [1, b'a', 0xc0, 0x00];
    assert!(read_name(&m2, 2).is_err());
    let self_ref = [0xc0, 0x00];
    assert!(read_name(&self_ref, 0).is_err());
    let fwd = [0xc0, 0x02, 0x00];
    assert!(read_name(&fwd, 0).is_err());
}

#[test]
fn truncated_names_are_errors() {
    assert!(read_name(&[5, b'a'], 0).is_err());
    assert!(read_name(&[], 0).is_err());
    assert!(read_name(&[0xc0], 0).is_err());
    assert_eq!(read_name(&[0], 0), Ok(("<Root>".into(), 1)));
}

#[test]
fn unprintable_label_bytes_are_shown_in_decimal() {
    assert_eq!(read_name(&[1, 0, 0], 0), Ok(("\\000".into(), 3)));
    assert_eq!(
        read_name(&[3, b'a', 0xff, b'b', 0], 0),
        Ok(("a\\255b".into(), 5))
    );
}
