use me_stow::glob::glob_match;
use me_stow::text::{chars_of, copy_names, names_le, push_decimal, push_signed_decimal, same_text, sort_names, string_of};

#[test]
fn names_order_like_str() {
    assert!(names_le("abc", "abd"));
    assert!(names_le("ab", "abc"));
    assert!(!names_le("b", "abc"));
    assert!(names_le("", ""));
    assert!(names_le("Z", "a"));
    assert_eq!(names_le("é", "z"), "é" <= "z");
}

#[test]
fn sort_names_sorts() {
    let mut v: Vec<String> = vec!["zsh".into(), "nvim".into(), "alacritty".into(), "nvim".into(), "Git".into()];
    let mut expected = v.clone();
    expected.sort();
    sort_names(&mut v);
    assert_eq!(v, expected);
    let mut empty: Vec<String> = vec![];
    sort_names(&mut empty);
    assert!(empty.is_empty());
}

#[test]
fn decimals() {
    let mut s = String::from("x=");
    push_decimal(&mut s, 0);
    assert_eq!(s, "x=0");
    let mut s = String::new();
    push_decimal(&mut s, 1234567890);
    assert_eq!(s, "1234567890");
    let mut s = String::new();
    push_signed_decimal(&mut s, -42);
    assert_eq!(s, "-42");
    let mut s = String::new();
    push_signed_decimal(&mut s, i32::MIN);
    assert_eq!(s, i32::MIN.to_string());
}

#[test]
fn chars_and_strings() {
    let c = chars_of("héllo");
    assert_eq!(c, vec!['h', 'é', 'l', 'l', 'o']);
    assert_eq!(string_of(&c), "héllo");
    assert!(same_text("a", "a"));
    assert!(!same_text("a", "ab"));
    let names = vec!["a".to_string(), "b".to_string()];
    assert_eq!(copy_names(&names), names);
}

#[test]
fn glob_star_and_question() {
    assert!(glob_match("*", "anything"));
    assert!(glob_match("*", ""));
    assert!(glob_match("n?im", "nvim"));
    assert!(!glob_match("n?im", "nvvim"));
    assert!(glob_match("z*", "zsh"));
    assert!(glob_match("*rc", "bashrc"));
    assert!(!glob_match("*rc", "bash"));
    assert!(glob_match("a*b*c", "axxbyyc"));
}

#[test]
fn glob_sets() {
    assert!(glob_match("[abc]x", "bx"));
    assert!(!glob_match("[abc]x", "dx"));
    assert!(glob_match("[a-c]x", "cx"));
    assert!(glob_match("[!a]x", "bx"));
    assert!(!glob_match("[!a]x", "ax"));
    assert!(glob_match("[]]", "]"));
    assert!(glob_match("[x", "[x"));
}

#[test]
fn glob_plain_names_match_themselves() {
    assert!(glob_match("nvim", "nvim"));
    assert!(!glob_match("nvim", "nvim2"));
    assert!(!glob_match("nvim", "vim"));
}
