use tinypngx::text::{
    chars_of, decimal_string, hex_string, parse_u32, push_decimal, push_signed, push_two_digits,
    string_of, trim, whitespace,
};

#[test]
fn decimal_text_of_numbers() {
    for n in [0u64, 7, 9, 10, 42, 100, 500, 65_535, u64::MAX] {
        assert_eq!(decimal_string(n), n.to_string());
    }
    let mut s = String::from("n=");
    push_decimal(&mut s, 1_000_000);
    assert_eq!(s, "n=1000000");
}

#[test]
fn signed_text_of_numbers() {
    for n in [0i32, 1, -1, 2024, -262_143, i32::MAX, i32::MIN] {
        let mut s = String::new();
        push_signed(&mut s, n);
        assert_eq!(s, n.to_string());
    }
}

#[test]
fn padded_text_of_numbers() {
    for n in [0u32, 1, 9, 10, 12, 99, 100] {
        let mut s = String::new();
        push_two_digits(&mut s, n);
        assert_eq!(s, format!("{:02}", n));
    }
}

#[test]
fn parsing_agrees_with_the_standard_parser() {
    let samples = [
        "", "+", "-", "0", "5", "+5", "-0", "-5", "++5", "007", "4294967295", "4294967296",
        "+4294967295", "99999999999999999999999", "000000000000000000000001", "12a", " 12", "12 ",
        "1.0", "\u{ff11}",
    ];
    for s in samples {
        assert_eq!(parse_u32(&s.as_bytes().to_vec()), s.parse::<u32>().ok(), "{}", s);
    }
}

#[test]
fn decimal_text_parses_back() {
    for n in [0u32, 1, 499, 500, 501, u32::MAX] {
        assert_eq!(parse_u32(&decimal_string(n as u64).into_bytes()), Some(n));
    }
}

#[test]
fn hexadecimal_text_of_bytes() {
    assert_eq!(hex_string(&vec![]), "");
    assert_eq!(hex_string(&vec![0x00, 0x0f, 0xa0, 0xff, 0x5b]), "000fa0ff5b");
    assert_ne!(hex_string(&vec![1, 16]), hex_string(&vec![17, 0]));
}

#[test]
fn whitespace_is_that_of_unicode() {
    for code in 0..=0x10ffffu32 {
        if let Some(c) = char::from_u32(code) {
            assert_eq!(whitespace(c), c.is_whitespace(), "{:x}", code);
        }
    }
}

#[test]
fn trimming_agrees_with_the_standard_library() {
    for s in ["", " ", "a", " a ", "\t\u{3000} a b \r\n", "\u{a0}密钥\u{2029}", "   "] {
        let trimmed = trim(&chars_of(s));
        assert_eq!(string_of(&trimmed), s.trim());
    }
}
