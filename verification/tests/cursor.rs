use netscope::dissect::cursor::{Cursor, DissectError};

#[test]
fn reads_are_bounds_checked_and_ranged() {
    let data = [1u8, 2, 3, 4, 5];
    let mut c = Cursor::new(&data, 100, 0);
    assert_eq!(c.u8().unwrap(), (1, 100..101));
    assert_eq!(c.u16().unwrap(), (0x0203, 101..103));
    assert_eq!(c.remaining(), 2);
    assert_eq!(
        c.u32(),
        Err(DissectError::Truncated {
            at: 103,
            need: 4,
            have: 2
        })
    );
    // A failed read consumes nothing.
    assert_eq!(c.abs(), 103);
    assert_eq!(c.rest_range(), 103..105);
}

#[test]
fn huge_lengths_do_not_overflow() {
    let data = [0u8; 4];
    let mut c = Cursor::new(&data, usize::MAX - 2, 0);
    assert!(c.take(usize::MAX).is_err());
    assert!(c.peek(usize::MAX).is_err());
    assert!(c.sub(usize::MAX).is_err());
}

#[test]
fn sub_cursor_keeps_absolute_offsets() {
    let data = [9u8; 10];
    let mut c = Cursor::new(&data, 0, 0);
    c.skip(3).unwrap();
    let mut s = c.sub(4).unwrap();
    assert_eq!(s.abs(), 3);
    assert_eq!(s.u8().unwrap().1, 3..4);
    assert_eq!(s.remaining(), 3);
    assert_eq!(c.abs(), 7);
}
