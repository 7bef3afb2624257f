use sbpf_debugger::cli::parse_input_bytes;
use sbpf_debugger::text::{
    char_digit, chars_of, digit_to_char, parse_u64, parse_usize, push_chars, push_decimal,
    push_hex, push_hex16, push_hex_padded, push_str, string_of,
};

fn chars(s: &str) -> Vec<char> {
    s.chars().collect()
}

#[test]
fn strings_and_characters_convert_both_ways() {
    assert_eq!(chars_of("aé\u{3000}z"), vec!['a', 'é', '\u{3000}', 'z']);
    assert_eq!(chars_of(""), Vec::<char>::new());
    assert_eq!(string_of(&['x', 'ß']), "xß");
    let mut s = String::from("a");
    push_chars(&mut s, &['b', 'c']);
    push_str(&mut s, "de");
    s.push('f');
    assert_eq!(s, "abcdef");
}

#[test]
fn numbers_are_rendered_as_the_formatter_does() {
    for v in [0u64, 1, 9, 10, 15, 16, 255, 256, 4096, 0xdead_beef, u64::MAX] {
        let mut d = String::new();
        push_decimal(&mut d, v);
        assert_eq!(d, format!("{}", v));
        let mut h = String::new();
        push_hex(&mut h, v);
        assert_eq!(h, format!("{:x}", v));
        let mut h16 = String::new();
        push_hex16(&mut h16, v);
        assert_eq!(h16, format!("0x{:016x}", v));
        let mut h2 = String::new();
        push_hex_padded(&mut h2, v, 2);
        assert_eq!(h2, format!("{:02x}", v));
    }
    let mut s = String::from("pc=");
    push_hex16(&mut s, 0x1000);
    assert_eq!(s, "pc=0x0000000000001000");
}

#[test]
fn digits_have_their_characters() {
    let all: String = (0..16u8).map(digit_to_char).collect();
    assert_eq!(all, "0123456789abcdef");
    assert_eq!(char_digit('7', 10), Some(7));
    assert_eq!(char_digit('a', 10), None);
    assert_eq!(char_digit('a', 16), Some(10));
    assert_eq!(char_digit('F', 16), Some(15));
    assert_eq!(char_digit('g', 16), None);
    assert_eq!(char_digit('/', 16), None);
    assert_eq!(char_digit(':', 16), None);
    assert_eq!(char_digit('٣', 10), None);
}

#[test]
fn unsigned_numbers_are_read_as_the_standard_library_reads_them() {
    let decimal = [
        "0", "7", "007", "+5", "18446744073709551615", "18446744073709551616",
        "99999999999999999999999", "", "+", "-1", "1 ", " 1", "1_0", "0x10", "++1", "1+", "٣",
        "12a",
    ];
    for text in decimal {
        assert_eq!(parse_u64(&chars(text), 10), text.parse::<u64>().ok(), "{:?}", text);
        assert_eq!(parse_usize(&chars(text)), text.parse::<usize>().ok(), "{:?}", text);
    }
    let hex = [
        "0", "ff", "FF", "fF", "+a", "ffffffffffffffff", "10000000000000000", "", "+", "-1", "g",
        "0x1", "dead beef",
    ];
    for text in hex {
        assert_eq!(parse_u64(&chars(text), 16), u64::from_str_radix(text, 16).ok(), "{:?}", text);
    }
    assert_eq!(parse_u64(&chars("18446744073709551615"), 10), Some(u64::MAX));
    assert_eq!(parse_u64(&chars("1f"), 16), Some(31));
}

#[test]
fn program_input_is_a_list_of_bytes() {
    let none: Result<Vec<u8>, String> = Ok(vec![]);
    for text in ["", " ", "\t\n", "0", " 0 ", ",", " , ,"] {
        assert_eq!(parse_input_bytes(text), none, "{:?}", text);
    }
    assert_eq!(parse_input_bytes("1,2,3"), Ok(vec![1, 2, 3]));
    assert_eq!(parse_input_bytes(" 1 , 2,,255 ,"), Ok(vec![1, 2, 255]));
    assert_eq!(parse_input_bytes("0,0"), Ok(vec![0, 0]));
    assert_eq!(parse_input_bytes("00"), Ok(vec![0]));
    assert_eq!(parse_input_bytes("+7"), Ok(vec![7]));
    assert_eq!(parse_input_bytes("7"), Ok(vec![7]));
    assert_eq!(parse_input_bytes("256"), Err("256".to_string()));
    assert_eq!(parse_input_bytes("1, x ,y"), Err("x".to_string()));
    assert_eq!(parse_input_bytes("1,2,-3"), Err("-3".to_string()));
    assert_eq!(parse_input_bytes("1 2"), Err("1 2".to_string()));
    assert_eq!(parse_input_bytes("0x10"), Err("0x10".to_string()));
    assert_eq!(parse_input_bytes("99999999999999999999999,1"), Err("99999999999999999999999".to_string()));
}
