use logslm::text::text_less;
use logslm::text::{chars_of, contains_str, ends_with_str, push_char, push_decimal, replace_first_str, str_eq};

#[test]
fn decimal_formatting() {
    let mut s = String::from("lat=");
    push_decimal(&mut s, 0);
    assert_eq!(s, "lat=0");
    let mut s = String::new();
    push_decimal(&mut s, 89000);
    assert_eq!(s, "89000");
    let mut s = String::new();
    push_decimal(&mut s, u32::MAX);
    assert_eq!(s, "4294967295");
}

#[test]
fn replace_first_occurrence_only() {
    assert_eq!(replace_first_str("a-b-c", "-", "+"), "a+b-c");
    assert_eq!(replace_first_str("abc", "x", "y"), "abc");
    assert_eq!(replace_first_str("abc", "", "<"), "<abc");
    assert_eq!(replace_first_str("aaa", "aa", "b"), "ba");
    assert_eq!(replace_first_str("x[error]y[error]", "[error]", "[CATASTROPHE]"), "x[CATASTROPHE]y[error]");
}

#[test]
fn suffix_and_substring() {
    assert!(ends_with_str("block0.ln1.bias", "bias"));
    assert!(!ends_with_str("ias", "bias"));
    assert!(ends_with_str("x", ""));
    assert!(contains_str("block0.ln1.weight", "ln"));
    assert!(!contains_str("head.weight", "ln"));
    assert!(contains_str("", ""));
}

#[test]
fn string_helpers() {
    assert!(str_eq("real", "real"));
    assert!(!str_eq("real", "synth"));
    assert_eq!(chars_of("aé€"), vec!['a', 'é', '€']);
    let mut s = String::from("ab");
    push_char(&mut s, '€');
    assert_eq!(s, "ab€");
}

#[test]
fn lexicographic_order_by_code_point() {
    let v = |s: &str| s.chars().collect::<Vec<char>>();
    assert!(text_less(&v("ab"), &v("b")));
    assert!(text_less(&v("a"), &v("ab")));
    assert!(!text_less(&v("ab"), &v("ab")));
    assert!(!text_less(&v("b"), &v("ab")));
    assert!(text_less(&v("Z"), &v("a")));
    assert!(text_less(&v("z"), &v("é")));
    assert!(!text_less(&v("x"), &v("")));
}
