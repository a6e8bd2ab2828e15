use spytrap_engine::glob::{glob_match, is_valid_pattern};
use spytrap_engine::text::{
    bytes_eq, contains_bytes, contains_ignoring_case, copy_bytes, copy_range, is_member, split,
    starts_at, to_lower,
};

fn b(s: &str) -> Vec<u8> {
    s.as_bytes().to_vec()
}

#[test]
fn glob_literal_matches_itself_only() {
    assert!(glob_match(&b("abc"), &b("abc")));
    assert!(!glob_match(&b("abc"), &b("abcd")));
    assert!(!glob_match(&b("abc"), &b("ab")));
    assert!(!glob_match(&b("abc"), &b("")));
    assert!(glob_match(&b(""), &b("")));
    assert!(!glob_match(&b(""), &b("a")));
}

#[test]
fn glob_star_is_any_run() {
    assert!(glob_match(&b("*"), &b("")));
    assert!(glob_match(&b("*"), &b("anything")));
    assert!(glob_match(&b("com.example.*"), &b("com.example.")));
    assert!(glob_match(&b("*.spy"), &b("a.b.spy")));
    assert!(!glob_match(&b("*.spy"), &b("a.b.spy2")));
    assert!(glob_match(&b("a*b*c"), &b("a--b--b--c")));
    assert!(!glob_match(&b("a*b*c"), &b("a--c--b")));
    assert!(glob_match(&b("*a*a*a*a*b"), &b("aaaaaaaaaaaaaaaaaaaaaaaaaaaaaaaaab")));
    assert!(!glob_match(&b("*a*a*a*a*b"), &b("aaaaaaaaaaaaaaaaaaaaaaaaaaaaaaaaaa")));
}

#[test]
fn pattern_validity() {
    assert!(is_valid_pattern(&b("com.example.*")));
    assert!(is_valid_pattern(&b("*")));
    assert!(!is_valid_pattern(&b("")));
    assert!(!is_valid_pattern(&b("a**b")));
    assert!(!is_valid_pattern(&b("a b")));
    assert!(!is_valid_pattern(&vec![97, 200]));
    assert!(!is_valid_pattern(&vec![97, 9]));
}

#[test]
fn byte_helpers() {
    assert!(bytes_eq(&b("abc"), &b("abc")));
    assert!(!bytes_eq(&b("abc"), &b("abd")));
    assert!(!bytes_eq(&b("abc"), &b("ab")));
    assert_eq!(copy_bytes(&b("hello")), b("hello"));
    assert_eq!(copy_range(&b("hello"), 1, 3), b("el"));
    assert_eq!(copy_range(&b("hello"), 2, 2), b(""));
    assert_eq!(to_lower(&b("Hello, WORLD @[`{ az AZ")), b("hello, world @[`{ az az"));
}

#[test]
fn substring_search() {
    assert!(starts_at(&b("hello"), &b("ll"), 2));
    assert!(!starts_at(&b("hello"), &b("ll"), 3));
    assert!(!starts_at(&b("hello"), &b("lo"), 4));
    assert!(starts_at(&b("hello"), &b(""), 5));
    assert!(!starts_at(&b("hello"), &b(""), 6));
    assert!(contains_bytes(&b("hello"), &b("llo")));
    assert!(contains_bytes(&b("hello"), &b("")));
    assert!(contains_bytes(&b(""), &b("")));
    assert!(!contains_bytes(&b("hello"), &b("lol")));
    assert!(!contains_bytes(&b("hi"), &b("high")));
    assert!(contains_ignoring_case(&b("HeLLo"), &b("ELL")));
    assert!(!contains_bytes(&b("HeLLo"), &b("ELL")));
}

#[test]
fn membership() {
    let list = vec![b("A"), b("B")];
    assert!(is_member(&list, &b("B")));
    assert!(!is_member(&list, &b("AB")));
    assert!(!is_member(&Vec::new(), &b("A")));
}

#[test]
fn splitting() {
    assert_eq!(split(&b("a,b,c"), 44), vec![b("a"), b("b"), b("c")]);
    assert_eq!(split(&b(""), 44), vec![b("")]);
    assert_eq!(split(&b(","), 44), vec![b(""), b("")]);
    assert_eq!(split(&b("a,,b,"), 44), vec![b("a"), b(""), b("b"), b("")]);
    assert_eq!(split(&b("abc"), 44), vec![b("abc")]);
}
