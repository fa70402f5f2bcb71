use swiss_army_suite::encoding::query_component;
use swiss_army_suite::input::is_whitespace;
use swiss_army_suite::input::parse_choice;
use swiss_army_suite::input::split_list;
use swiss_army_suite::input::trim;
use swiss_army_suite::input::MenuChoice;
use swiss_army_suite::text::chars_of;
use swiss_army_suite::text::appended;
use swiss_army_suite::text::digits_only;
use swiss_army_suite::text::parse_count;
use swiss_army_suite::text::push_decimal;
use swiss_army_suite::text::same_text;
use swiss_army_suite::text::string_of;
use swiss_army_suite::text::substitute;

fn decimal(n: u64) -> String {
    let mut s = String::new();
    push_decimal(&mut s, n);
    s
}

#[test]
fn decimal_numerals_have_no_leading_zero() {
    assert_eq!(decimal(0), "0");
    assert_eq!(decimal(7), "7");
    assert_eq!(decimal(10), "10");
    assert_eq!(decimal(150), "150");
    assert_eq!(decimal(u64::MAX), "18446744073709551615");
}

#[test]
fn push_decimal_appends() {
    let mut s = String::from("page=");
    push_decimal(&mut s, 42);
    assert_eq!(s, "page=42");
}

#[test]
fn chars_and_strings_convert_both_ways() {
    assert_eq!(chars_of("aé"), vec!['a', 'é']);
    assert_eq!(string_of(&vec!['x', 'ÿ', 'z']), "xÿz");
    assert_eq!(appended("ab", "cd"), "abcd");
}

#[test]
fn substitute_replaces_every_occurrence_from_left_to_right() {
    assert_eq!(substitute("a(kw)b(kw)", "(kw)", "X"), "aXbX");
    assert_eq!(substitute("aaa", "aa", "b"), "ba");
    assert_eq!(substitute("abc", "x", "y"), "abc");
    assert_eq!(substitute("", "x", "y"), "");
    assert_eq!(substitute("(kw", "(kw)", "X"), "(kw");
    assert_eq!(substitute("x", "x", "xx"), "xx");
}

#[test]
fn substitute_with_an_empty_placeholder_changes_nothing() {
    assert_eq!(substitute("abc", "", "-"), "abc");
}

#[test]
fn digits_only_keeps_the_ascii_digits() {
    assert_eq!(digits_only("About 1,234 results (0.42 seconds)"), "1234042");
    assert_eq!(digits_only("none"), "");
    assert_eq!(digits_only("a\u{0663}b\u{00b2}c\u{00bd}"), "");
    assert_eq!(digits_only("1\u{00bd}"), "1");
    assert_eq!(digits_only("0123456789"), "0123456789");
}

#[test]
fn white_space_is_what_the_standard_library_takes_for_it() {
    for code in 0..=0x10ffffu32 {
        if let Some(c) = char::from_u32(code) {
            assert_eq!(is_whitespace(c), c.is_whitespace(), "U+{:04X}", code);
        }
    }
}

#[test]
fn parse_count_reads_ascii_digits_that_fit() {
    assert_eq!(parse_count("0"), Some(0));
    assert_eq!(parse_count("0042"), Some(42));
    assert_eq!(parse_count("4294967295"), Some(u32::MAX));
    assert_eq!(parse_count("4294967296"), None);
    assert_eq!(parse_count("99999999999999999999999"), None);
    assert_eq!(parse_count(""), None);
    assert_eq!(parse_count("12a"), None);
    assert_eq!(parse_count("+5"), None);
    assert_eq!(parse_count("\u{0663}"), None);
}

#[test]
fn query_components_are_percent_encoded() {
    assert_eq!(query_component("hello world!"), "hello%20world%21");
    assert_eq!(query_component("AZaz09-._~"), "AZaz09-._~");
    assert_eq!(query_component("\u{1f47e}"), "%F0%9F%91%BE");
    assert_eq!(query_component(""), "");
    assert_eq!(query_component("a/b?c=d&e"), "a%2Fb%3Fc%3Dd%26e");
}

#[test]
fn trim_strips_white_space_at_both_ends_only() {
    assert_eq!(trim("  a b \t\n"), "a b");
    assert_eq!(trim("\u{a0}x\u{2003}"), "x");
    assert_eq!(trim("   "), "");
    assert_eq!(trim(""), "");
    assert_eq!(trim("x"), "x");
}

#[test]
fn split_list_trims_the_items_and_leaves_out_the_empty_ones() {
    assert_eq!(split_list("a, b ,c"), vec!["a".to_string(), "b".to_string(), "c".to_string()]);
    assert_eq!(split_list(" pdf ,, doc ,\n"), vec!["pdf".to_string(), "doc".to_string()]);
    assert_eq!(split_list("one item"), vec!["one item".to_string()]);
    assert_eq!(split_list(""), Vec::<String>::new());
    assert_eq!(split_list(" , ,"), Vec::<String>::new());
    assert_eq!(split_list("a,a"), vec!["a".to_string(), "a".to_string()]);
}

#[test]
fn menu_choices_are_the_digits_one_to_six() {
    assert_eq!(parse_choice("1\n"), MenuChoice::Parser);
    assert_eq!(parse_choice(" 2 "), MenuChoice::VulnScanner);
    assert_eq!(parse_choice("3"), MenuChoice::KeywordGenerator);
    assert_eq!(parse_choice("4\r\n"), MenuChoice::DorkGenerator);
    assert_eq!(parse_choice("5"), MenuChoice::DorkChecker);
    assert_eq!(parse_choice("6"), MenuChoice::Exit);
    assert_eq!(parse_choice("7"), MenuChoice::Invalid);
    assert_eq!(parse_choice("0"), MenuChoice::Invalid);
    assert_eq!(parse_choice(""), MenuChoice::Invalid);
    assert_eq!(parse_choice("12"), MenuChoice::Invalid);
    assert_eq!(parse_choice("one"), MenuChoice::Invalid);
}

#[test]
fn same_text_compares_character_by_character() {
    assert!(same_text("", ""));
    assert!(same_text("h\u{e9}llo", "h\u{e9}llo"));
    assert!(!same_text("hello", "hellp"));
    assert!(!same_text("hello", "hell"));
    assert!(!same_text("e\u{301}", "\u{e9}"));
    assert!(!same_text("a", "A"));
}
