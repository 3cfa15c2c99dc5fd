use nysia_core::paths::{join_path, program_name};
use nysia_core::text::{
    before_char, chars_of, decimal_of, eq_ignoring_case, has_char, hex_of, is_before, is_blank,
    is_white_space, matches_ignoring_case, parse_digits, same, second_word_of, slice_of, split_on,
    starts_with, trim, wide_decimal_of,
};
use nysia_core::wire::Platform;

#[test]
fn white_space_is_what_std_says_it_is() {
    for c in '\0'..=char::MAX {
        assert_eq!(is_white_space(c), c.is_whitespace(), "{:?}", c);
    }
}

#[test]
fn text_is_taken_apart_the_way_std_does() {
    for text in ["", " ", "a", " a b ", "\u{3000}x\t", "a,b", ",a,,b,", "\u{e9},\u{1f600}", "\n"] {
        assert_eq!(trim(text), text.trim(), "{text:?}");
        assert_eq!(is_blank(text), text.trim().is_empty(), "{text:?}");
        assert_eq!(split_on(text, ','), text.split(',').collect::<Vec<_>>(), "{text:?}");
        assert_eq!(before_char(text, ','), text.split(',').next().expect("one part"), "{text:?}");
        assert_eq!(has_char(text, ','), text.contains(','), "{text:?}");
        assert_eq!(chars_of(text), text.chars().collect::<Vec<_>>(), "{text:?}");
        assert_eq!(starts_with(text, "a"), text.starts_with('a'), "{text:?}");
        for other in ["", "A", "a,b", " A B "] {
            assert_eq!(same(text, other), text == other);
            assert_eq!(eq_ignoring_case(text, other), text.eq_ignore_ascii_case(other));
            assert_eq!(is_before(text, other), text < other, "{text:?} {other:?}");
        }
    }
    assert_eq!(slice_of(&chars_of("abcd"), 1, 3), "bc");
    assert!(!eq_ignoring_case("\u{e9}", "\u{c9}"), "only ascii letters have two cases here");
    assert!(matches_ignoring_case(&chars_of("say WSL.exe"), 4, "wsl"));
    assert!(!matches_ignoring_case(&chars_of("ws"), 0, "wsl"));
}

#[test]
fn numbers_are_written_and_read_in_decimal() {
    for n in [0, 9, 10, 1_000, u64::from(u32::MAX), u64::MAX] {
        assert_eq!(decimal_of(n), n.to_string());
        assert_eq!(wide_decimal_of(u128::from(n)), n.to_string());
    }
    assert_eq!(wide_decimal_of(u128::MAX), u128::MAX.to_string());
    assert_eq!(parse_digits(&chars_of("x042"), 1, 100), Some(42));
    assert_eq!(parse_digits(&chars_of("101"), 0, 100), None);
    assert_eq!(parse_digits(&chars_of("1a"), 0, 100), None);
    assert_eq!(parse_digits(&chars_of(""), 0, 100), None);
    assert_eq!(hex_of(&[0, 15, 16, 255]), "000f10ff");
    let second: Option<String> =
        second_word_of(&chars_of(" S  42 7"), 0).map(|word| word.into_iter().collect());
    assert_eq!(second.as_deref(), Some("42"));
    assert_eq!(second_word_of(&chars_of("one"), 0), None);
}

#[test]
fn paths_are_joined_with_the_platforms_separator() {
    assert_eq!(join_path(Platform::Unix, "/run", "x"), "/run/x");
    assert_eq!(join_path(Platform::Unix, "/run/", "x"), "/run/x");
    assert_eq!(join_path(Platform::Windows, r"C:\run", "x"), r"C:\run\x");
    assert_eq!(program_name("/usr/bin/git"), "git");
    assert_eq!(program_name(r"C:\bin\gh.exe"), "gh.exe");
}

#[test]
fn only_a_letter_and_a_colon_is_a_drive_and_a_verbatim_path_has_one_separator() {
    assert_eq!(join_path(Platform::Windows, "C:", "x"), "C:x");
    assert_eq!(join_path(Platform::Windows, "z:", "x"), "z:x");
    assert_eq!(join_path(Platform::Windows, "1:", "x"), r"1:\x");
    assert_eq!(join_path(Platform::Windows, "\u{e9}:", "x"), "\u{e9}:\\x");
    assert_eq!(join_path(Platform::Windows, r"C:\run/", "x"), r"C:\run/x");
    assert_eq!(join_path(Platform::Windows, r"\\?\C:\run/", "x"), r"\\?\C:\run/\x");
    assert_eq!(join_path(Platform::Windows, r"\\?\C:\run\", "x"), r"\\?\C:\run\x");
}
