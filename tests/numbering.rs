use catr::numbering::{format_number, is_blank, is_space_char, render_line, Policy};

#[test]
fn number_is_right_aligned_in_six_columns() {
    assert_eq!(format_number(0), "     0\t");
    assert_eq!(format_number(1), "     1\t");
    assert_eq!(format_number(42), "    42\t");
    assert_eq!(format_number(123456), "123456\t");
    assert_eq!(format_number(1234567), "1234567\t");
    assert_eq!(format_number(u64::MAX), "18446744073709551615\t");
}

#[test]
fn blank_means_only_whitespace() {
    assert!(is_blank(""));
    assert!(is_blank("   "));
    assert!(is_blank(" \t\r"));
    assert!(is_blank("\u{3000}\u{a0}"));
    assert!(!is_blank("a"));
    assert!(!is_blank("  a  "));
}

#[test]
fn whitespace_matches_std() {
    for u in 0u32..0x3100 {
        if let Some(c) = char::from_u32(u) {
            assert_eq!(is_space_char(c), c.is_whitespace(), "code point {:x}", u);
        }
    }
}

#[test]
fn render_line_per_policy() {
    assert_eq!(render_line(Policy::Plain, 7, "abc"), ("abc\n".to_string(), 7));
    assert_eq!(render_line(Policy::All, 7, "abc"), ("     7\tabc\n".to_string(), 8));
    assert_eq!(render_line(Policy::All, 7, ""), ("     7\t\n".to_string(), 8));
    assert_eq!(render_line(Policy::NonBlank, 7, "abc"), ("     7\tabc\n".to_string(), 8));
    assert_eq!(render_line(Policy::NonBlank, 7, "  "), ("\n".to_string(), 7));
}
