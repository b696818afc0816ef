use pwatch::number;

fn chars(s: &str) -> Vec<char> {
    s.chars().collect()
}

const NUMBERS: [&str; 18] = [
    "",
    "+",
    "-",
    "0",
    "+5",
    "++5",
    "-5",
    "007",
    "ff",
    "FF",
    "g",
    "1g",
    "18446744073709551615",
    "18446744073709551616",
    "ffffffffffffffff",
    "10000000000000000",
    "00000000000000000000000000001",
    "\u{661}",
];

#[test]
fn reading_agrees_with_from_str_radix() {
    for s in NUMBERS {
        let c = chars(s);
        assert_eq!(number::parse_hex_u64(&c), u64::from_str_radix(s, 16).ok(), "{}", s);
        assert_eq!(number::parse_decimal_u64(&c), s.parse::<u64>().ok(), "{}", s);
        assert_eq!(number::parse_decimal_u32(&c), s.parse::<u32>().ok(), "{}", s);
    }
    assert_eq!(number::parse_decimal_u32(&chars("4294967295")), Some(u32::MAX));
    assert_eq!(number::parse_decimal_u32(&chars("4294967296")), None);
}

#[test]
fn writing_agrees_with_format() {
    for n in [0u64, 1, 9, 10, 15, 16, 255, 4096, 0xdead_beef, u64::MAX] {
        assert_eq!(number::format_address(n), format!("0x{n:016x}"));
        assert_eq!(number::format_hex(n), format!("0x{n:x}"));
        assert_eq!(number::format_decimal(n), n.to_string());
    }
    assert_eq!(number::format_address(0x1f0), "0x00000000000001f0");
}

#[test]
fn digits_have_values() {
    assert_eq!(number::digit('7'), 7);
    assert_eq!(number::digit('c'), 12);
    assert_eq!(number::digit('C'), 12);
    assert_eq!(number::digit('g'), 16);
    assert!(number::only_digits(&chars("09af"), 16));
    assert!(!number::only_digits(&chars("09af"), 10));
    assert!(number::only_digits(&chars(""), 10));
}

#[test]
fn reading_undoes_writing() {
    for n in [0u64, 7, 1234567890, u64::MAX] {
        let decimal = chars(&number::format_decimal(n));
        assert_eq!(number::parse_decimal_u64(&decimal), Some(n));
        let address = chars(&number::format_address(n));
        assert_eq!(address.len(), 18);
        assert_eq!(number::parse_hex_u64(&address[2..]), Some(n));
    }
}
