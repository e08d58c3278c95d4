use gdb_machine::tools::{
    contains_text, entry_value, extract_gdb_group, from_chars, gdb_output_to_json_repr,
    parse_gdb_equal_list, parse_i32, parse_response_with_token, parse_u32, parse_u64,
    push_decimal, str_eq, strip_prefix, to_chars,
};

fn pairs(v: &[(&str, &str)]) -> Vec<(String, String)> {
    v.iter().map(|(a, b)| (a.to_string(), b.to_string())).collect()
}

#[test]
fn chars_round_trip() {
    let v = to_chars("héllo");
    assert_eq!(v, vec!['h', 'é', 'l', 'l', 'o']);
    assert_eq!(from_chars(&v), "héllo");
}

#[test]
fn strip_prefix_takes_the_prefix_off() {
    assert_eq!(strip_prefix("done,x", "done"), Some(",x".to_string()));
    assert_eq!(strip_prefix("done", "done"), Some(String::new()));
    assert_eq!(strip_prefix("don", "done"), None);
    assert_eq!(strip_prefix("xdone", "done"), None);
    assert_eq!(strip_prefix("abc", ""), Some("abc".to_string()));
}

#[test]
fn str_eq_compares_contents() {
    assert!(str_eq("SIGINT", "SIGINT"));
    assert!(!str_eq("SIGINT", "SIGINt"));
    assert!(!str_eq("SIGINT", "SIGIN"));
    assert!(str_eq("", ""));
}

#[test]
fn contains_text_finds_infixes() {
    assert!(contains_text("7f00 default heap anon=3", " heap "));
    assert!(!contains_text("7f00 default stack anon=3", " heap "));
    assert!(contains_text("abc", ""));
    assert!(!contains_text("ab", "abc"));
    assert!(contains_text("abc", "abc"));
    assert!(contains_text("xxabc", "abc"));
}

#[test]
fn parse_u32_follows_the_decimal_grammar() {
    assert_eq!(parse_u32("0"), Some(0));
    assert_eq!(parse_u32("42"), Some(42));
    assert_eq!(parse_u32("+42"), Some(42));
    assert_eq!(parse_u32("0042"), Some(42));
    assert_eq!(parse_u32("4294967295"), Some(u32::MAX));
    assert_eq!(parse_u32("4294967296"), None);
    assert_eq!(parse_u32("99999999999999999999999999"), None);
    assert_eq!(parse_u32(""), None);
    assert_eq!(parse_u32("+"), None);
    assert_eq!(parse_u32("-1"), None);
    assert_eq!(parse_u32("12a"), None);
    assert_eq!(parse_u32(" 12"), None);
    for text in ["0", "42", "+42", "0042", "4294967295", "4294967296", "", "+", "-1", "12a", "-0"] {
        assert_eq!(parse_u32(text), text.parse::<u32>().ok());
    }
}

#[test]
fn parse_u64_follows_the_decimal_grammar() {
    assert_eq!(parse_u64("18446744073709551615"), Some(u64::MAX));
    assert_eq!(parse_u64("18446744073709551616"), None);
    assert_eq!(parse_u64("000000000000000000000000000001"), Some(1));
    for text in ["7", "+7", "-7", "", "18446744073709551615", "18446744073709551616", "1_0"] {
        assert_eq!(parse_u64(text), text.parse::<u64>().ok());
    }
}

#[test]
fn parse_i32_follows_the_decimal_grammar() {
    assert_eq!(parse_i32("-1"), Some(-1));
    assert_eq!(parse_i32("-0"), Some(0));
    assert_eq!(parse_i32("+5"), Some(5));
    assert_eq!(parse_i32("2147483647"), Some(i32::MAX));
    assert_eq!(parse_i32("2147483648"), None);
    assert_eq!(parse_i32("-2147483648"), Some(i32::MIN));
    assert_eq!(parse_i32("-2147483649"), None);
    assert_eq!(parse_i32("-"), None);
    assert_eq!(parse_i32("--1"), None);
    assert_eq!(parse_i32("-+1"), None);
    for text in ["-1", "-0", "+5", "2147483647", "2147483648", "-2147483648", "-2147483649", "-", ""] {
        assert_eq!(parse_i32(text), text.parse::<i32>().ok());
    }
}

#[test]
fn push_decimal_writes_base_ten() {
    let mut s = String::from("id=");
    push_decimal(&mut s, 0);
    assert_eq!(s, "id=0");
    push_decimal(&mut s, 1234567890);
    assert_eq!(s, "id=01234567890");
    let mut t = String::new();
    push_decimal(&mut t, u64::MAX);
    assert_eq!(t, "18446744073709551615");
}

#[test]
fn equal_list_reads_pairs_in_order() {
    let got = parse_gdb_equal_list("level=\"0\",addr=\"0x1139\",func=\"main\"");
    assert_eq!(got, pairs(&[("level", "0"), ("addr", "0x1139"), ("func", "main")]));
}

#[test]
fn equal_list_skips_empty_values_and_odd_keys() {
    let got = parse_gdb_equal_list("a=\"\",thread-id=\"3\",Big=\"x\",n_1=\"y\"");
    assert_eq!(got, pairs(&[("thread-id", "3"), ("ig", "x")]));
    assert!(parse_gdb_equal_list("nothing here").is_empty());
    assert!(parse_gdb_equal_list("").is_empty());
}

#[test]
fn entry_value_takes_the_last_pair_of_a_key() {
    let e = pairs(&[("line", "1"), ("file", "a.c"), ("line", "2")]);
    assert_eq!(entry_value(&e, "line"), Some("2".to_string()));
    assert_eq!(entry_value(&e, "file"), Some("a.c".to_string()));
    assert_eq!(entry_value(&e, "func"), None);
    assert_eq!(entry_value(&Vec::new(), "line"), None);
}

#[test]
fn groups_are_the_innermost_braces() {
    let got = extract_gdb_group("variables=[{name=\"a\",value=\"1\"},{name=\"b\",value=\"2\"}]");
    assert_eq!(got, vec!["name=\"a\",value=\"1\"".to_string(), "name=\"b\",value=\"2\"".to_string()]);
    assert_eq!(extract_gdb_group("x={a={b}}"), vec!["b".to_string()]);
    assert_eq!(extract_gdb_group("{}"), vec![String::new()]);
    assert!(extract_gdb_group("no group").is_empty());
}

#[test]
fn token_response_splits_token_and_payload() {
    assert_eq!(
        parse_response_with_token("\\^", "12^done,threads=[]\n"),
        Some((12, "done,threads=[]".to_string()))
    );
    assert_eq!(parse_response_with_token("\\^", "0^running\n"), Some((0, "running".to_string())));
    assert_eq!(parse_response_with_token("\\^", "^done\n"), None);
    assert_eq!(parse_response_with_token("\\^", "12^done"), None);
    assert_eq!(parse_response_with_token("\\^", "*stopped,reason=\"x\"\n"), None);
    assert_eq!(parse_response_with_token("\\^", "99999999999999999999^done\n"), None);
    assert_eq!(parse_response_with_token("\\*", "7*stopped\n"), Some((7, "stopped".to_string())));
    assert_eq!(parse_response_with_token("(", "7(x\n"), None);
}

#[test]
fn json_repr_quotes_the_names() {
    assert_eq!(
        gdb_output_to_json_repr("{debug=[{filename=\"a.c\",line=\"3\"}]}"),
        Some("{\"debug\" : [{\"filename\" : \"a.c\",\"line\" : \"3\"}]}".to_string())
    );
    assert_eq!(gdb_output_to_json_repr("plain"), Some("plain".to_string()));
}
