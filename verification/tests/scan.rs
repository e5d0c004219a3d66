use doomfront::scan::{
    is_at, is_byte_at, range_eq_ignoring_case, scan_block_comment, scan_exponent, scan_float,
    scan_ident, scan_int, scan_int_suffix, scan_keyword, scan_line_break, scan_line_comment,
    scan_line_end, scan_run, scan_skip, scan_sync, starts_with_at, to_ascii_lower, Class,
};
use doomfront::text::slice;
use doomfront::error::{unexpected_at, Reason};

#[test]
fn classes_of_bytes() {
    let members: [(Class, &str); 12] = [
        (Class::Whitespace, " \r\n\t"),
        (Class::DecDigit, "0123456789"),
        (Class::OctDigit, "01234567"),
        (Class::HexDigit, "0123456789abcdefABCDEF"),
        (Class::IdentStart, "abcdefghijklmnopqrstuvwxyzABCDEFGHIJKLMNOPQRSTUVWXYZ_"),
        (Class::IdentContinue, "abcdefghijklmnopqrstuvwxyzABCDEFGHIJKLMNOPQRSTUVWXYZ_0123456789"),
        (Class::HexMark, "xX"),
        (Class::IntSuffix, "uUlL"),
        (Class::ExponentMark, "eE"),
        (Class::Sign, "+-"),
        (Class::FloatSuffix, "fF"),
        (Class::Sync, ";\r\n"),
    ];
    for (class, bytes) in members {
        for b in 0..=255u8 {
            assert_eq!(class.contains(b), bytes.as_bytes().contains(&b), "{class:?} {b}");
        }
    }
}

#[test]
fn runs_and_single_bytes() {
    let src = b"  ab12  ";
    assert_eq!(scan_run(src, 0, Class::Whitespace), 2);
    assert_eq!(scan_run(src, 2, Class::Whitespace), 2);
    assert_eq!(scan_run(src, 2, Class::IdentContinue), 6);
    assert_eq!(scan_run(src, 6, Class::Whitespace), 8);
    assert_eq!(scan_run(src, 8, Class::Whitespace), 8);
    assert_eq!(scan_run(src, 20, Class::Whitespace), 20);
    assert_eq!(scan_skip(src, 0, Class::Whitespace), 1);
    assert_eq!(scan_skip(src, 2, Class::Whitespace), 2);
    assert_eq!(scan_skip(src, 8, Class::Whitespace), 8);
    assert!(is_at(src, 4, Class::DecDigit));
    assert!(!is_at(src, 3, Class::DecDigit));
    assert!(!is_at(src, 8, Class::DecDigit));
    assert!(is_byte_at(src, 2, b'a'));
    assert!(!is_byte_at(src, 2, b'b'));
    assert!(!is_byte_at(src, 8, b' '));
}

#[test]
fn words_and_case() {
    assert!(starts_with_at(b"hello", 1, b"ell"));
    assert!(starts_with_at(b"hello", 5, b""));
    assert!(!starts_with_at(b"hello", 6, b""));
    assert!(!starts_with_at(b"hello", 3, b"low"));
    assert!(!starts_with_at(b"hello", 1, b"elL"));
    assert!(!starts_with_at(b"hello", usize::MAX, b"h"));
    for b in 0..=255u8 {
        assert_eq!(to_ascii_lower(b), b.to_ascii_lowercase());
    }
    assert!(range_eq_ignoring_case(b"a SeRvEr b", 2, 8, b"server"));
    assert!(!range_eq_ignoring_case(b"a SeRvEr b", 2, 7, b"server"));
    assert!(!range_eq_ignoring_case(b"a SeRvEr b", 2, 8, b"servar"));
    assert!(range_eq_ignoring_case(b"", 0, 0, b""));
    assert!(!range_eq_ignoring_case(b"[", 0, 1, b"{"));
    assert!(!range_eq_ignoring_case(b"@", 0, 1, b"`"));
    assert_eq!(scan_ident(b"_a1 b", 0), Some(3));
    assert_eq!(scan_ident(b"1a", 0), None);
    assert_eq!(scan_ident(b"a", 1), None);
    assert_eq!(scan_keyword(b"Int x", 0, b"int"), Some(3));
    assert_eq!(scan_keyword(b"Intx", 0, b"int"), None);
}

#[test]
fn numbers() {
    assert_eq!(scan_int_suffix(b"1ul;", 1), 3);
    assert_eq!(scan_int_suffix(b"1ulL", 1), 3);
    assert_eq!(scan_int_suffix(b"1;", 1), 1);
    assert_eq!(scan_int_suffix(b"1", 1), 1);
    assert_eq!(scan_int(b"0x1Fu;", 0), Some(5));
    assert_eq!(scan_int(b"x", 0), None);
    assert_eq!(scan_int(b"1", usize::MAX), None);
    assert_eq!(scan_exponent(b"e10", 0), Some(3));
    assert_eq!(scan_exponent(b"E-1x", 0), Some(3));
    assert_eq!(scan_exponent(b"e+", 0), None);
    assert_eq!(scan_exponent(b"10", 0), None);
    assert_eq!(scan_float(b"1.5e3f;", 0), Some(6));
    assert_eq!(scan_float(b"15", 0), None);
    assert_eq!(scan_float(b"1.5", 7), None);
}

#[test]
fn lines_and_comments() {
    assert_eq!(scan_line_break(b"\r\nx", 0), 2);
    assert_eq!(scan_line_break(b"\r\nx", 1), 1);
    assert_eq!(scan_line_break(b"\rx", 0), 1);
    assert_eq!(scan_line_break(b"\x0b", 0), 1);
    assert_eq!(scan_line_break(b"\x0c", 0), 1);
    assert_eq!(scan_line_break("\u{85}".as_bytes(), 0), 2);
    assert_eq!(scan_line_break("\u{2028}".as_bytes(), 0), 3);
    assert_eq!(scan_line_break("\u{2029}".as_bytes(), 0), 3);
    assert_eq!(scan_line_break("\u{2027}".as_bytes(), 0), 0);
    assert_eq!(scan_line_break("\u{a0}".as_bytes(), 0), 0);
    assert_eq!(scan_line_break(b"\xe2\x80", 0), 0);
    assert_eq!(scan_line_break(b"x", 0), 0);
    assert_eq!(scan_line_break(b"x", 1), 0);
    assert_eq!(scan_line_end(b"ab\ncd", 0), 3);
    assert_eq!(scan_line_end(b"ab\ncd", 3), 5);
    assert_eq!(scan_line_end(b"ab", 2), 2);
    assert_eq!(scan_line_comment(b"x// y\nz", 1), Some(6));
    assert_eq!(scan_line_comment(b"x// y\nz", 0), None);
    assert_eq!(scan_block_comment(b"/* * / **/ */", 0), Some(10));
    assert_eq!(scan_block_comment(b"/* *", 0), None);
    assert_eq!(scan_sync(b"ab;cd", 0), 2);
    assert_eq!(scan_sync(b"ab\rcd", 1), 2);
    assert_eq!(scan_sync(b"ab\ncd", 2), 2);
    assert_eq!(scan_sync(b"ab\ncd", 3), 5);
    assert_eq!(scan_sync(b"ab", 2), 2);
}

#[test]
fn slices_and_error_spans() {
    let source = "a\u{e9}\u{20ac}\u{1f600}z";
    assert_eq!(slice(source, 0, 1), "a");
    assert_eq!(slice(source, 1, 3), "\u{e9}");
    assert_eq!(slice(source, 3, 10), "\u{20ac}\u{1f600}");
    assert_eq!(slice(source, 11, 11), "");
    assert_eq!(slice(source, 0, 11), source);
    let bytes = source.as_bytes();
    let spans: Vec<(usize, usize)> = [0usize, 1, 3, 6, 10, 11]
        .iter()
        .map(|&at| {
            let error = unexpected_at(bytes, at, Reason::ExpectedIdent);
            assert_eq!(error.reason, Reason::ExpectedIdent);
            (error.start, error.end)
        })
        .collect();
    assert_eq!(spans, vec![(0, 1), (1, 3), (3, 6), (6, 10), (10, 11), (11, 11)]);
    assert_eq!(Reason::ExpectedFlag.message(), "expected a flag or scope specifier");
    assert_eq!(Reason::ExpectedTypeSpec.message(), "expected a type specifier");
    assert_eq!(Reason::ExpectedWhitespace.message(), "expected whitespace or a comment");
    assert_eq!(Reason::ExpectedIdent.message(), "expected an identifier");
    assert_eq!(Reason::ExpectedDefaultOrSemicolon.message(), "expected `=` or `;`");
    assert_eq!(Reason::ExpectedLiteral.message(), "expected a literal");
    assert_eq!(Reason::ExpectedSemicolon.message(), "expected `;`");
    assert_eq!(Reason::InvalidCodePoint.message(), "invalid UTF-8 character");
}
