use snakepit::native::pattern::{find_all, replace_all, Pattern};

#[test]
fn test_wildcard() {
    assert!(snakepit::native::pattern::matches("test.py", "*.py"));
    assert!(snakepit::native::pattern::matches("test.rs", "*.rs"));
    assert!(!snakepit::native::pattern::matches("test.py", "*.rs"));
}

#[test]
fn test_question_mark() {
    assert!(snakepit::native::pattern::matches("test", "t?st"));
    assert!(snakepit::native::pattern::matches("tast", "t?st"));
    assert!(!snakepit::native::pattern::matches("toast", "t?st"));
}

#[test]
fn test_char_class() {
    assert!(snakepit::native::pattern::matches("a", "[abc]"));
    assert!(snakepit::native::pattern::matches("b", "[abc]"));
    assert!(!snakepit::native::pattern::matches("d", "[abc]"));
}

#[test]
fn test_char_range() {
    assert!(snakepit::native::pattern::matches("a", "[a-z]"));
    assert!(snakepit::native::pattern::matches("m", "[a-z]"));
    assert!(!snakepit::native::pattern::matches("A", "[a-z]"));
}

#[test]
fn test_negated_class() {
    assert!(snakepit::native::pattern::matches("d", "[^abc]"));
    assert!(!snakepit::native::pattern::matches("a", "[^abc]"));
}

#[test]
fn test_anchors() {
    assert!(snakepit::native::pattern::matches("test", "^test$"));
    assert!(snakepit::native::pattern::matches("test.py", "^test"));
    assert!(snakepit::native::pattern::matches("test.py", ".py$"));
    assert!(!snakepit::native::pattern::matches("test.py", "^.py$"));
}

#[test]
fn test_escape() {
    assert!(snakepit::native::pattern::matches("test*", r"test\*"));
    assert!(!snakepit::native::pattern::matches("test", r"test\*"));
}

#[test]
fn pattern_parts() {
    let p = Pattern::new("^^ab$$");
    assert!(p.anchor_start);
    assert!(p.anchor_end);
    assert_eq!(p.pattern, b"ab".to_vec());
    let p = Pattern::new("ab");
    assert!(!p.anchor_start);
    assert!(!p.anchor_end);
    assert!(p.matches("xxabxx"));
    assert!(!p.matches("xxa"));
    assert!(snakepit::native::pattern::matches("", ""));
    assert!(snakepit::native::pattern::matches("abc", "a*"));
    assert!(snakepit::native::pattern::matches("abc", "^a*c$"));
    assert!(!snakepit::native::pattern::matches("abc", "^a*b$"));
    assert!(snakepit::native::pattern::matches("a", "^a***$"));
    assert!(!snakepit::native::pattern::matches("ab", "[]"));
    assert!(snakepit::native::pattern::matches("x-", "x[a-]"));
}

#[test]
fn find_and_replace() {
    assert_eq!(find_all("abcabc", "^bc"), vec![1, 4]);
    assert_eq!(find_all("héllo", "^l"), vec![3, 4]);
    assert_eq!(find_all("", "a"), Vec::<usize>::new());
    assert_eq!(replace_all("hello world", "world", "rust"), "hello rust");
    assert_eq!(replace_all("aaa", "aa", "b"), "ba");
    assert_eq!(replace_all("ab", "", "-"), "-a-b-");
    assert_eq!(replace_all("abc", "x", "y"), "abc");
}
