use coreos_metadata::text::{
    chars_of, push_decimal, push_hex_pair, push_hexadecimal, same_text, text_precedes,
};

fn decimal_of(n: u32) -> String {
    let mut out = String::new();
    push_decimal(&mut out, n);
    out
}

fn hexadecimal_of(n: u32) -> String {
    let mut out = String::new();
    push_hexadecimal(&mut out, n);
    out
}

#[test]
fn numbers_are_written_in_decimal() {
    assert_eq!(decimal_of(0), "0");
    assert_eq!(decimal_of(7), "7");
    assert_eq!(decimal_of(10), "10");
    assert_eq!(decimal_of(255), "255");
    assert_eq!(decimal_of(1234567890), "1234567890");
    assert_eq!(decimal_of(u32::MAX), "4294967295");
    let mut out = "x=".to_string();
    push_decimal(&mut out, 42);
    assert_eq!(out, "x=42");
}

#[test]
fn numbers_are_written_in_hexadecimal() {
    assert_eq!(hexadecimal_of(0), "0");
    assert_eq!(hexadecimal_of(9), "9");
    assert_eq!(hexadecimal_of(10), "a");
    assert_eq!(hexadecimal_of(15), "f");
    assert_eq!(hexadecimal_of(16), "10");
    assert_eq!(hexadecimal_of(0xdb8), "db8");
    assert_eq!(hexadecimal_of(0xffff), "ffff");
    assert_eq!(hexadecimal_of(u32::MAX), "ffffffff");
}

#[test]
fn bytes_are_written_as_two_hexadecimal_digits() {
    for (byte, text) in [(0u8, "00"), (1, "01"), (9, "09"), (10, "0a"), (16, "10"), (171, "ab"), (255, "ff")] {
        let mut out = String::new();
        push_hex_pair(&mut out, byte);
        assert_eq!(out, text);
    }
}

#[test]
fn texts_are_compared_character_by_character() {
    assert!(same_text("", ""));
    assert!(same_text("ec2", "ec2"));
    assert!(!same_text("ec2", "ec"));
    assert!(!same_text("ec2", "ec3"));
    assert!(!same_text("é", "e"));
    assert_eq!(chars_of("aé中"), vec!['a', 'é', '中']);
}

#[test]
fn the_order_of_texts_is_lexicographic() {
    assert!(text_precedes("", "a"));
    assert!(text_precedes("a", "b"));
    assert!(text_precedes("a", "ab"));
    assert!(text_precedes("Z", "a"));
    assert!(text_precedes("ab", "b"));
    assert!(text_precedes("instance-id", "local-ipv4"));
    assert!(!text_precedes("a", "a"));
    assert!(!text_precedes("b", "a"));
    assert!(!text_precedes("ab", "a"));
    assert!(!text_precedes("", ""));
}

#[test]
fn the_order_of_texts_is_that_of_the_standard_library() {
    let samples = ["", "a", "ab", "b", "B", "é", "e", "中", "z", "~", "a\u{10ffff}"];
    for a in samples {
        for b in samples {
            assert_eq!(text_precedes(a, b), a < b, "{:?} {:?}", a, b);
        }
    }
}
