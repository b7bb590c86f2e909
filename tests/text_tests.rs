use agent_tools::text::{truncate_safe, truncate_safe_in_place};
use agent_tools::util::{expand_env_vars_impl, expand_value, limit_bytes, limit_content};

#[test]
fn test_truncate_safe() {
    assert_eq!(truncate_safe("Hello World", 5), "Hello");
    assert_eq!(truncate_safe("Hello ", 5), "Hello");
    assert_eq!(truncate_safe("Hello World", 11), "Hello World");
    assert_eq!(truncate_safe("Hello World", 15), "Hello World");
}

#[test]
fn test_truncate_safe_in_place() {
    let suffix = "suffix";
    let tests = &[
        ("Hello World", 7, "Hsuffix"),
        ("Hello World", usize::MAX, "Hello World"),
        ("hi", 5, "hi"),
        ("Hello World", 5, "suffi"),
        ("αααααα", 7, "suffix"),
        ("αααααα", 8, "αsuffix"),
        ("αααααα", 9, "αsuffix"),
    ];
    assert!("α".len() == 2);

    for (orig_input, max_bytes, expected) in tests {
        let mut input = (*orig_input).to_string();
        truncate_safe_in_place(&mut input, *max_bytes, suffix);
        assert_eq!(
            input.as_str(),
            *expected,
            "input: {} with max bytes: {} failed",
            orig_input,
            max_bytes
        );
    }
}

#[test]
fn truncate_never_splits_a_multibyte_character() {
    let s = "aé€😀b";
    for n in 0..=s.len() + 2 {
        let t = truncate_safe(s, n);
        assert!(t.len() <= n || t == s);
        assert!(s.starts_with(t));
        assert!(s.is_char_boundary(t.len()));
    }
    assert_eq!(truncate_safe("€", 2), "");
    assert_eq!(truncate_safe("€x", 3), "€");
}

#[test]
fn test_process_env_vars() {
    let vars = vec![("TEST_VAR".to_string(), "test_value".to_string())];
    let mut env_vars = vec![
        ("KEY1".to_string(), "Value is ${env:TEST_VAR}".to_string()),
        ("KEY2".to_string(), "No substitution".to_string()),
    ];

    expand_env_vars_impl(&mut env_vars, &vars);

    assert_eq!(env_vars[0].1, "Value is test_value");
    assert_eq!(env_vars[1].1, "No substitution");
}

#[test]
fn expand_unset_variable_keeps_its_name() {
    let vars = vec![("A".to_string(), "1".to_string())];
    assert_eq!(expand_value("x${env:MISSING}y", &vars), "x${MISSING}y");
    assert_eq!(expand_value("${env:A}${env:A}", &vars), "11");
    assert_eq!(expand_value("${env:}${env:A", &vars), "${env:}${env:A");
    assert_eq!(expand_value("", &vars), "");
}

#[test]
fn test_read_file_with_max_limit() {
    let test_file = "123456789\n".repeat(3);
    let (content, bytes_truncated) = limit_content(&test_file, 30, 100, "...");
    assert_eq!(content, test_file);
    assert_eq!(bytes_truncated, 0);

    let (content, bytes_truncated) = limit_content("123456789\n", 30, 10, "...");
    assert_eq!(content, "1234567...");
    assert_eq!(bytes_truncated, 23);

    let (content, bytes_truncated) = limit_content("1", 30, 1, "...");
    assert_eq!(content, "");
    assert_eq!(bytes_truncated, 30);
}

#[test]
fn limited_read_decodes_bytes() {
    let (content, n) = limit_bytes(&b"abc".to_vec(), 3, 10, "...");
    assert_eq!(content, "abc");
    assert_eq!(n, 0);
    let (content, n) = limit_bytes(&vec![b'a', 0xff, b'b'], 3, 10, "...");
    assert_eq!(content, "a\u{FFFD}b");
    assert_eq!(n, 0);
}

#[test]
fn limited_read_stays_within_the_limit() {
    let (content, n) = limit_bytes(&vec![0xff, 0xff, 0xff, 0xff], 10, 4, ".");
    assert!(content.len() <= 4);
    assert!(content.ends_with('.'));
    assert_eq!(n, 7);
}
