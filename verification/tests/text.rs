use lc_syntax::text::{
    characters, decimal_text, join, push_blank, push_decimal, push_integer, push_text, same_text,
    split_lines,
};

#[test]
fn decimal_numerals() {
    assert_eq!(decimal_text(0), "0");
    assert_eq!(decimal_text(9), "9");
    assert_eq!(decimal_text(10), "10");
    assert_eq!(decimal_text(1234567890), "1234567890");
    assert_eq!(decimal_text(u64::MAX), "18446744073709551615");
    let mut n: u64 = 0;
    while n < 2000 {
        assert_eq!(decimal_text(n), n.to_string());
        n += 1;
    }
}

#[test]
fn numerals_are_appended() {
    let mut out = String::from("line ");
    push_decimal(&mut out, 305);
    assert_eq!(out, "line 305");
    push_integer(&mut out, -7);
    assert_eq!(out, "line 305-7");
}

#[test]
fn signed_numerals() {
    for n in [0, 1, -1, 10, -10, 99, -100, i64::MAX, i64::MIN, i64::MIN + 1] {
        let mut out = String::new();
        push_integer(&mut out, n);
        assert_eq!(out, n.to_string());
    }
}

#[test]
fn blanks_and_text_are_appended() {
    let mut out = String::from("|");
    push_blank(&mut out, 0);
    assert_eq!(out, "|");
    push_blank(&mut out, 3);
    assert_eq!(out, "|   ");
    push_text(&mut out, "^ é");
    assert_eq!(out, "|   ^ é");
    push_text(&mut out, "");
    assert_eq!(out, "|   ^ é");
}

#[test]
fn texts_are_compared_by_characters() {
    assert!(same_text("", ""));
    assert!(same_text("let", "let"));
    assert!(same_text("é", "é"));
    assert!(!same_text("let", "le"));
    assert!(!same_text("let", "lit"));
    assert!(!same_text("", "a"));
    assert!(!same_text("ab", "ba"));
}

#[test]
fn characters_of_a_text() {
    assert_eq!(characters(""), Vec::<char>::new());
    assert_eq!(characters("aé\n"), vec!['a', 'é', '\n']);
}

#[test]
fn lines_are_split_at_newlines() {
    assert_eq!(split_lines(""), vec![String::new()]);
    assert_eq!(split_lines("a"), vec!["a".to_string()]);
    assert_eq!(split_lines("a\nb"), vec!["a".to_string(), "b".to_string()]);
    assert_eq!(split_lines("a\n"), vec!["a".to_string(), String::new()]);
    assert_eq!(split_lines("\n"), vec![String::new(), String::new()]);
    for text in ["", "one", "one\ntwo\nthree", "\n\n", "a\r\nb", "é\n\né", "trailing\n"] {
        let expected: Vec<String> = text.split('\n').map(|l| l.to_string()).collect();
        assert_eq!(split_lines(text), expected);
    }
}

#[test]
fn pieces_are_joined() {
    assert_eq!(join(&vec![]), "");
    assert_eq!(join(&vec!["a".to_string()]), "a");
    assert_eq!(join(&vec!["a".to_string(), String::new(), "bc".to_string()]), "abc");
}
