use jamurust::wire::{push_all, push_le16, push_le32, read_le16, read_le32};

#[test]
fn le16_puts_the_low_byte_first() {
    let mut out = vec![0xaa];
    push_le16(&mut out, 0x8000);
    push_le16(&mut out, 0x1234);
    assert_eq!(out, vec![0xaa, 0x00, 0x80, 0x34, 0x12]);
}

#[test]
fn le32_puts_the_low_byte_first() {
    let mut out = Vec::new();
    push_le32(&mut out, 48000);
    push_le32(&mut out, 0x0102_0304);
    assert_eq!(out, vec![0x80, 0xbb, 0x00, 0x00, 0x04, 0x03, 0x02, 0x01]);
}

#[test]
fn reading_gives_back_what_was_written() {
    let mut out = vec![9, 9, 9];
    push_le16(&mut out, 0xfffe);
    push_le32(&mut out, 0xdead_beef);
    assert_eq!(read_le16(&out, 3), 0xfffe);
    assert_eq!(read_le32(&out, 5), 0xdead_beef);
    assert_eq!(read_le16(&[0x01, 0x02], 0), 0x0201);
}

#[test]
fn push_all_appends_in_order() {
    let mut out = vec![1];
    push_all(&mut out, &[2, 3, 4]);
    push_all(&mut out, &[]);
    assert_eq!(out, vec![1, 2, 3, 4]);
}
