use herdr_tab_title::number::{parse_u32, parse_u64, to_decimal};
use herdr_tab_title::text::{
    char_is_control, char_is_digit, char_is_space, char_lower, char_upper, char_width, has_suffix,
    same_text, split_by, stripped, stripped_of, to_ascii_lowercase, to_ascii_uppercase, trimmed,
    trimmed_end, trimmed_start,
};

#[test]
fn characters_are_those_of_the_standard_library() {
    for code in 0..=0x10ffffu32 {
        if let Some(c) = char::from_u32(code) {
            assert_eq!(char_is_space(c), c.is_whitespace());
            assert_eq!(char_is_control(c), c.is_control());
            assert_eq!(char_is_digit(c), c.is_ascii_digit());
            assert_eq!(char_lower(c), c.to_ascii_lowercase());
            assert_eq!(char_upper(c), c.to_ascii_uppercase());
            assert_eq!(char_width(c), c.len_utf8());
        }
    }
}

#[test]
fn strings_are_cut_like_those_of_the_standard_library() {
    for s in ["", " a b ", "\u{3000}x\n", "plain", " \t", "é ", "a.exe.exe", ".exe"] {
        assert_eq!(trimmed(s), s.trim());
        assert_eq!(trimmed_start(s), s.trim_start());
        assert_eq!(trimmed_end(s), s.trim_end());
        assert_eq!(stripped_of(s, ".exe"), s.trim_end_matches(".exe"));
        assert_eq!(has_suffix(s, ".exe"), s.ends_with(".exe"));
        assert_eq!(to_ascii_lowercase(s), s.to_ascii_lowercase());
        assert_eq!(to_ascii_uppercase(s), s.to_ascii_uppercase());
        assert_eq!(split_by(s, ' '), s.split(' ').map(String::from).collect::<Vec<_>>());
        assert_eq!(stripped(s, ' '), s.trim_matches(' '));
        assert!(same_text(s, s));
        assert!(!same_text(s, &format!("{s}x")));
    }
}

#[test]
fn numbers_are_read_back() {
    for n in [0, 1, 9, 10, 255, 4294967295, 4294967296, u64::MAX] {
        assert_eq!(to_decimal(n), n.to_string());
        assert_eq!(parse_u64(&to_decimal(n)), Some(n));
    }
}

#[test]
fn numbers_are_read_like_those_of_the_standard_library() {
    for s in ["", "+", "-", "+1", "-1", "-0", "01", "4294967295", "4294967296", "1 ", "٣", "1_0"] {
        assert_eq!(parse_u32(s), s.parse::<u32>().ok());
        assert_eq!(parse_u64(s), s.parse::<u64>().ok());
    }
}
