use recommand_sys::number::{decimal_string, parse_u32, parse_u64, parse_usize};
use recommand_sys::text::extract_year;

#[test]
fn extract_year_reads_title_years() {
    assert_eq!(extract_year("Toy Story (1995)"), Some(1995));
    assert_eq!(extract_year("01-Jan-1977"), Some(1977));
    assert_eq!(extract_year("no year here"), None);
    assert_eq!(extract_year("Movie 1899 and 2101"), None);
    assert_eq!(extract_year("Film 2100"), Some(2100));
}

#[test]
fn parse_unsigned_like_std() {
    assert_eq!(parse_u32("42"), Some(42));
    assert_eq!(parse_u32("+7"), Some(7));
    assert_eq!(parse_u32("+"), None);
    assert_eq!(parse_u32(""), None);
    assert_eq!(parse_u32("-1"), None);
    assert_eq!(parse_u32("4294967295"), Some(u32::MAX));
    assert_eq!(parse_u32("4294967296"), None);
    assert_eq!(parse_u64("874965000"), Some(874_965_000));
    assert_eq!(parse_usize("12a"), None);
    assert_eq!(decimal_string(0), "0");
    assert_eq!(decimal_string(1995), "1995");
}

#[test]
fn decimal_text_reads_back() {
    for n in [0u64, 7, 10, 1995, 874_965_034, u32::MAX as u64] {
        assert_eq!(parse_u64(&decimal_string(n)), Some(n));
    }
    assert_eq!(parse_u32(&decimal_string(u32::MAX as u64)), Some(u32::MAX));
    assert_eq!(parse_u64(&decimal_string(u64::MAX)), Some(u64::MAX));
}

#[test]
fn extract_year_stops_at_a_split_character() {
    assert_eq!(extract_year("Amélie (2001)"), None);
    assert_eq!(extract_year("1999 Amélie"), Some(1999));
}
