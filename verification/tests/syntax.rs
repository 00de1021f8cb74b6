use zxbasic::syntax;
use zxbasic::table::Table;
use zxbasic::text;
use zxbasic::value::Value;

fn chars(s: &str) -> Vec<char> {
    s.chars().collect()
}

fn show(s: &[char]) -> String {
    s.iter().collect()
}

#[test]
fn print_items_split_at_semicolons_outside_strings() {
    let src = chars("1;\"a;b\";;x");
    let items: Vec<String> = syntax::split_print_items(&src).iter().map(|x| show(x)).collect();
    assert_eq!(items, vec!["1", "\"a;b\"", "", "x"]);
    assert_eq!(syntax::split_print_items(&chars("")).len(), 1);
}

#[test]
fn words_split_in_either_case_outside_strings() {
    let src = chars("\"TO\"+toto TO 5");
    let (a, b) = syntax::split_whole_word_ci(&src, "to").unwrap();
    assert_eq!((show(a), show(b)), ("\"TO\"+toto ".to_string(), " 5".to_string()));
    assert!(syntax::split_whole_word_ci(&chars("STOP"), "TO").is_none());
    assert!(syntax::split_whole_word_ci(&chars("TO2"), "TO").is_none());
}

#[test]
fn quotes_open_and_close() {
    let src = chars("a\"b\"c");
    assert!(!syntax::inside_string_literal(&src, 1));
    assert!(syntax::inside_string_literal(&src, 2));
    assert!(!syntax::inside_string_literal(&src, 4));
    assert!(!syntax::inside_string_literal(&src, 99));
    assert!(syntax::inside_string_literal(&chars("\""), 99));
}

#[test]
fn assignment_sign_is_at_top_level() {
    assert_eq!(syntax::find_top_level_assignment_eq(&chars("A(B=1)=\"=\"")), Some(6));
    assert_eq!(syntax::find_top_level_assignment_eq(&chars("A\"=\"")), None);
}

#[test]
fn colon_splits_at_top_level() {
    let src = chars("A\":\"(:):B:C");
    let (a, b) = syntax::split_top_level_colon(&src);
    assert_eq!((show(a), show(b)), ("A\":\"(:)".to_string(), "B:C".to_string()));
    let src = chars("A");
    let (a, b) = syntax::split_top_level_colon(&src);
    assert_eq!((show(a), show(b)), ("A".to_string(), "".to_string()));
}

#[test]
fn first_words() {
    let src = chars("  print  1 2");
    let (a, b) = syntax::split_first_word(&src);
    assert_eq!((show(a), show(b)), ("print".to_string(), "1 2".to_string()));
    assert_eq!(syntax::first_word_uppercase(&src), "PRINT");
    let src = chars("12ab$(");
    let (a, b) = syntax::split_leading_number(&src);
    assert_eq!((show(a), show(b)), ("12".to_string(), "ab$(".to_string()));
    let (a, b) = syntax::split_identifier(&src);
    assert_eq!((show(a), show(b)), ("12ab$".to_string(), "(".to_string()));
}

#[test]
fn names_of_variables() {
    assert_eq!(syntax::normalise_var_name(&chars("ab$")), "AB$");
    assert_eq!(syntax::normalise_var_name(&chars("a b")), "");
    for (name, valid) in [
        ("A", true),
        ("A1$", true),
        ("", false),
        ("1A", false),
        ("$", false),
        ("A$B", false),
        ("A$$", false),
    ] {
        assert_eq!(syntax::is_valid_var_name(name), valid, "{}", name);
    }
}

#[test]
fn texts_trim_and_count() {
    assert_eq!(show(text::trimmed(&chars("\u{a0} a b\t\n"))), "a b");
    assert_eq!(text::parse_u16(&chars("65535")), Some(65535));
    assert_eq!(text::parse_u16(&chars("65536")), None);
    assert_eq!(text::parse_u16(&chars("00010")), Some(10));
    assert_eq!(text::parse_u16(&chars("")), None);
    let mut s = String::from("n");
    text::push_decimal(&mut s, u64::MAX);
    text::push_integer(&mut s, i32::MIN);
    assert_eq!(s, "n18446744073709551615-2147483648");
    assert_eq!(text::find(&chars("abab"), 'b'), Some(1));
    assert_eq!(text::rfind(&chars("abab"), 'b'), Some(3));
    assert_eq!(text::rfind(&chars("abab"), 'c'), None);
}

#[test]
fn tables_keep_the_latest_value() {
    let mut t: Table<Value> = Table::new();
    assert!(t.is_empty());
    t.insert("A".to_string(), Value::from("x"));
    t.insert("B".to_string(), Value::from("y"));
    t.insert("A".to_string(), Value::from("z"));
    assert_eq!(t.get("A"), Some(&Value::from("z")));
    assert_eq!(t.get("B"), Some(&Value::from("y")));
    assert_eq!(t.get("C"), None);
    t.clear();
    assert!(t.is_empty() && t.get("A").is_none());
}

#[test]
fn arrays_change_in_place() {
    let mut t: Table<Vec<u8>> = Table::new();
    t.insert("A".to_string(), vec![1, 2, 3]);
    t.insert("B".to_string(), vec![4]);
    t.set_element("A", 1, 9);
    assert_eq!(t.get("A"), Some(&vec![1, 9, 3]));
    assert_eq!(t.get("B"), Some(&vec![4]));
}
