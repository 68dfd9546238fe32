use akbox::json::JsonValue;
use akbox::json::json_array_len;
use akbox::json::json_bool_member;
use akbox::json::json_has_non_null_key;
use akbox::json::json_member;
use akbox::json::json_str_member;
use akbox::json::sort_strings;
use akbox::json::sorted_member_names;
use akbox::text::find_subsequence;
use akbox::text::i64_to_decimal;
use akbox::text::join_strings;
use akbox::text::split_lines;
use akbox::text::split_words;
use akbox::text::str_lt;
use akbox::text::trim_str;
use akbox::text::u64_to_decimal;

fn chars(s: &str) -> Vec<char> {
    s.chars().collect()
}

fn texts(v: Vec<Vec<char>>) -> Vec<String> {
    v.into_iter().map(|c| c.into_iter().collect()).collect()
}

fn object(members: Vec<(&str, JsonValue)>) -> JsonValue {
    JsonValue::Object(members.into_iter().map(|(k, v)| (k.to_string(), v)).collect())
}

#[test]
fn decimal_texts() {
    assert_eq!(u64_to_decimal(0), "0");
    assert_eq!(u64_to_decimal(u64::MAX), "18446744073709551615");
    assert_eq!(i64_to_decimal(-42), "-42");
    assert_eq!(i64_to_decimal(i64::MIN), "-9223372036854775808");
}

#[test]
fn trimming_and_splitting() {
    assert_eq!(trim_str("  a b \n"), "a b");
    assert_eq!(texts(split_words(&chars("  a  b\tc "))), vec!["a", "b", "c"]);
    assert_eq!(texts(split_lines(&chars("a\r\nb\n\nc"))), vec!["a", "b", "", "c"]);
    assert_eq!(join_strings(&["x".to_string(), "y".to_string()], ", "), "x, y");
    assert_eq!(join_strings(&[], ", "), "");
}

#[test]
fn string_order_and_search() {
    assert!(str_lt("abc", "abd"));
    assert!(str_lt("ab", "abc"));
    assert!(!str_lt("abc", "abc"));
    assert!(!str_lt("b", "abc"));
    assert_eq!(find_subsequence(&chars("hello world"), &chars("o w")), Some(4));
    assert_eq!(find_subsequence(&chars("hello"), &chars("xyz")), None);
    assert_eq!(find_subsequence(&chars("abc"), &chars("")), Some(0));
}

#[test]
fn json_members_take_the_first_occurrence() {
    let value = object(vec![
        ("name", JsonValue::String("a".to_string())),
        ("name", JsonValue::String("b".to_string())),
        ("flag", JsonValue::Bool(true)),
        ("list", JsonValue::Array(vec![JsonValue::Null, JsonValue::Null, JsonValue::Null])),
        ("none", JsonValue::Null),
    ]);
    assert_eq!(json_str_member(&value, "name"), Some("a".to_string()));
    assert_eq!(json_bool_member(&value, "flag"), Some(true));
    assert_eq!(json_bool_member(&value, "name"), None);
    assert_eq!(json_array_len(&value, "list"), 3);
    assert_eq!(json_array_len(&value, "flag"), 0);
    assert!(json_has_non_null_key(&value, "flag"));
    assert!(!json_has_non_null_key(&value, "none"));
    assert!(!json_has_non_null_key(&value, "missing"));
    assert!(json_member(&value, "missing").is_none());
    assert!(json_member(&JsonValue::Null, "name").is_none());
}

#[test]
fn names_are_sorted() {
    assert_eq!(
        sort_strings(vec!["b".to_string(), "a".to_string(), "b".to_string()]),
        vec!["a".to_string(), "b".to_string(), "b".to_string()]
    );
    let value = object(vec![("z", JsonValue::Null), ("a", JsonValue::Null)]);
    assert_eq!(sorted_member_names(&value), vec!["a".to_string(), "z".to_string()]);
    assert_eq!(sorted_member_names(&JsonValue::Bool(true)), Vec::<String>::new());
}
