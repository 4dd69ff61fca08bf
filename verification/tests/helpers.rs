use snphost::bytes::{append_bytes, contains, copy_bytes, push_le_u32, same_bytes};
use snphost::text::{push_hex, push_two_digits};

#[test]
fn numbers_are_written_least_significant_byte_first() {
    let mut out = vec![9u8];
    push_le_u32(&mut out, 0x0102_03ff);
    assert_eq!(out, vec![9, 0xff, 0x03, 0x02, 0x01]);
    push_le_u32(&mut out, 0);
    push_le_u32(&mut out, u32::MAX);
    assert_eq!(out[5..], [0, 0, 0, 0, 255, 255, 255, 255]);
    let mut expected = Vec::new();
    expected.extend_from_slice(&120u32.to_le_bytes());
    let mut written = Vec::new();
    push_le_u32(&mut written, 120);
    assert_eq!(written, expected);
}

#[test]
fn buffers_are_appended_copied_and_compared() {
    let mut out = vec![1u8, 2];
    append_bytes(&mut out, &[3, 4, 5]);
    append_bytes(&mut out, &[]);
    assert_eq!(out, vec![1, 2, 3, 4, 5]);
    assert_eq!(copy_bytes(&out), out);
    assert_eq!(copy_bytes(&[]), Vec::<u8>::new());
    assert!(same_bytes(&out, &[1, 2, 3, 4, 5]));
    assert!(!same_bytes(&out, &[1, 2, 3, 4]));
    assert!(!same_bytes(&out, &[1, 2, 3, 4, 6]));
    assert!(same_bytes(&[], &[]));
}

#[test]
fn contains_finds_a_run_of_bytes_anywhere() {
    assert!(contains(b"abcabd", b"abd"));
    assert!(contains(b"abcabd", b"abc"));
    assert!(contains(b"abcabd", b"cab"));
    assert!(contains(b"abcabd", b"abcabd"));
    assert!(contains(b"abcabd", b""));
    assert!(contains(b"", b""));
    assert!(!contains(b"abcabd", b"abe"));
    assert!(!contains(b"abcabd", b"abcabda"));
    assert!(!contains(b"", b"a"));
    assert!(!contains(b"aab", b"aba"));
}

#[test]
fn bytes_are_written_as_lower_case_hex() {
    let mut out = String::from("id=");
    push_hex(&mut out, &[0x00, 0x09, 0x0a, 0x9f, 0xf0, 0xff]);
    assert_eq!(out, "id=00090a9ff0ff");
    push_hex(&mut out, &[]);
    assert_eq!(out, "id=00090a9ff0ff");
}

#[test]
fn versions_get_a_leading_zero_below_ten() {
    let mut out = String::new();
    for v in [0u8, 7, 10, 42, 99, 100, 101, 110, 255] {
        push_two_digits(&mut out, v);
        out.push(' ');
    }
    assert_eq!(out, "00 07 10 42 99 100 101 110 255 ");
    for v in 0..=255u8 {
        let mut text = String::new();
        push_two_digits(&mut text, v);
        assert_eq!(text, format!("{:02}", v));
    }
}
