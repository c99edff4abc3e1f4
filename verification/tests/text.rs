use compyler::text::{characters, push_decimal, read_decimal, slice_text};

#[test]
fn read_decimal_values() {
    assert_eq!(read_decimal(""), 0);
    assert_eq!(read_decimal("0"), 0);
    assert_eq!(read_decimal("007"), 7);
    assert_eq!(read_decimal("1234"), 1234);
    assert_eq!(read_decimal("4294967295"), 4294967295);
}

#[test]
fn read_decimal_wraps() {
    assert_eq!(read_decimal("4294967296"), 0);
    assert_eq!(read_decimal("4294967297"), 1);
    assert_eq!(read_decimal("99999999999"), 1215752191);
}

#[test]
fn read_decimal_of_other_characters() {
    assert_eq!(read_decimal("a"), 49);
    assert_eq!(read_decimal(" "), 4294967280);
    assert_eq!(read_decimal("1a"), 59);
}

#[test]
fn push_decimal_values() {
    for (n, expected) in [(0u32, "0"), (7, "7"), (10, "10"), (1234, "1234"), (4294967295, "4294967295")] {
        let mut out = String::new();
        push_decimal(&mut out, n);
        assert_eq!(out, expected);
        assert_eq!(read_decimal(&out), n);
    }
    let mut out = "n=".to_owned();
    push_decimal(&mut out, 305);
    assert_eq!(out, "n=305");
}

#[test]
fn characters_and_slices() {
    let chars = characters("a😎b\n");
    assert_eq!(chars, vec!['a', '😎', 'b', '\n']);
    assert_eq!(slice_text(&chars, 0, 4), "a😎b\n");
    assert_eq!(slice_text(&chars, 1, 3), "😎b");
    assert_eq!(slice_text(&chars, 2, 2), "");
}
