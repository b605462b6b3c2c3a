use kernel::drivers::uart::{puts, thr_empty, LSR_THRE};

#[test]
fn line_status_bit() {
    assert_eq!(LSR_THRE, 0x20);
    assert!(thr_empty(0x20));
    assert!(thr_empty(0x60));
    assert!(!thr_empty(0x1f));
    assert!(!thr_empty(0));
}

#[test]
fn writes_each_byte_once_in_order() {
    let mut t = puts("hi!");
    let mut out = Vec::new();
    let statuses = [0x00, 0x20, 0x00, 0x00, 0x60, 0x20, 0x20, 0x20];
    for lsr in statuses {
        if let Some(b) = t.on_line_status(lsr) {
            out.push(b);
        }
    }
    assert_eq!(out, b"hi!".to_vec());
    assert!(t.is_done());
    assert_eq!(t.on_line_status(0x20), None);
}

#[test]
fn waits_while_holding_register_is_full() {
    let mut t = puts("é");
    assert!(!t.is_done());
    assert_eq!(t.on_line_status(0), None);
    assert_eq!(t.on_line_status(0xdf), None);
    assert_eq!(t.on_line_status(0x20), Some(0xc3));
    assert_eq!(t.on_line_status(0x20), Some(0xa9));
    assert!(t.is_done());
    let mut empty = puts("");
    assert!(empty.is_done());
    assert_eq!(empty.on_line_status(0x20), None);
}

fn drain(s: &str) -> Vec<u8> {
    let mut t = puts(s);
    let mut out = Vec::new();
    while !t.is_done() {
        if let Some(b) = t.on_line_status(0x20) {
            out.push(b);
        }
    }
    out
}

#[test]
fn two_strings_write_as_their_concatenation() {
    for (a, b) in [("hello, ", "world"), ("", "x"), ("ünï", "cødé\n"), ("", "")] {
        let mut both = drain(a);
        both.extend(drain(b));
        assert_eq!(both, drain(&[a, b].concat()));
    }
}
