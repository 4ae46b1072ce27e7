use nerv::text::{
    chars_of, contains_text, parse_i64_chars, parse_i64_list, push_int, push_joined_ints, push_joined_texts,
    push_text, push_uint, same_text, split_text, starts_with_text,
};

fn chars(s: &str) -> Vec<char> {
    s.chars().collect()
}

#[test]
fn chars_of_copies_every_character() {
    assert_eq!(chars_of("héllo"), vec!['h', 'é', 'l', 'l', 'o']);
    assert_eq!(chars_of(""), Vec::<char>::new());
}

#[test]
fn same_text_compares_characters() {
    assert!(same_text("relu", "relu"));
    assert!(!same_text("relu", "relu6"));
    assert!(!same_text("Relu", "relu"));
    assert!(same_text("", ""));
}

#[test]
fn contains_and_prefix() {
    assert!(contains_text("layers.0.conv.conv.weight", "conv"));
    assert!(contains_text("abc", ""));
    assert!(!contains_text("bia", "bias"));
    assert!(contains_text("x.bias", "bias"));
    assert!(starts_with_text("layers.3", "layers."));
    assert!(!starts_with_text("xlayers.3", "layers."));
    assert!(!starts_with_text("lay", "layers."));
}

#[test]
fn split_matches_str_split() {
    for s in ["9_16_128", "", "_", "a__b_", "1024_1"] {
        let expected: Vec<Vec<char>> = s.split('_').map(|p| p.chars().collect()).collect();
        assert_eq!(split_text(s, '_'), expected, "splitting {:?}", s);
    }
}

#[test]
fn parse_i64_matches_from_str() {
    for s in [
        "0", "42", "-7", "+5", "-0", "", "+", "-", "12a", "9223372036854775807", "9223372036854775808",
        "-9223372036854775808", "-9223372036854775809", "00012", "99999999999999999999999", "1.5",
    ] {
        assert_eq!(parse_i64_chars(&chars(s)), s.parse::<i64>().ok(), "parsing {:?}", s);
    }
}

#[test]
fn parse_list_of_dims() {
    assert_eq!(parse_i64_list("9_16_128", '_'), Some(vec![9, 16, 128]));
    assert_eq!(parse_i64_list("1024_1", '_'), Some(vec![1024, 1]));
    assert_eq!(parse_i64_list("9_x_128", '_'), None);
    assert_eq!(parse_i64_list("9__128", '_'), None);
    assert_eq!(parse_i64_list("", '_'), None);
}

#[test]
fn decimal_text_matches_display() {
    for v in [0i64, 7, 10, -1, 123456789, i64::MAX, i64::MIN] {
        let mut out = Vec::new();
        push_int(&mut out, v);
        assert_eq!(out, chars(&v.to_string()));
    }
    let mut out = vec!['x'];
    push_uint(&mut out, usize::MAX);
    assert_eq!(out, chars(&format!("x{}", usize::MAX)));
}

#[test]
fn joins_like_join() {
    let mut out = Vec::new();
    push_joined_ints(&mut out, &[5, 3, 2, -2], ",");
    assert_eq!(out, chars("5,3,2,-2"));
    let mut out = Vec::new();
    push_joined_ints(&mut out, &[], ",");
    assert!(out.is_empty());
    let mut out = vec!['a'];
    push_joined_texts(&mut out, &vec!["0.1".to_string(), "0.5".to_string()], ",");
    assert_eq!(out, chars("a0.1,0.5"));
    let mut out = vec!['a'];
    push_text(&mut out, "bc");
    assert_eq!(out, chars("abc"));
}
