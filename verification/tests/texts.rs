use orbit::document::{check_renderable, lookup, parse_document, render_document, Node};
use orbit::results::{all_or_first_failure, keep_successes};
use orbit::text::{
    append_str, chars_eq, chars_eq_ignoring_case, chars_le, chars_of, find_char, parse_number,
    push_decimal, slice_chars, starts_with, string_of,
};

fn chars(s: &str) -> Vec<char> {
    s.chars().collect()
}

#[test]
fn strings_and_characters_convert() {
    assert_eq!(chars_of("héllo"), chars("héllo"));
    assert_eq!(string_of(&chars("héllo")), "héllo");
    assert_eq!(string_of(&Vec::new()), "");
    let mut text = chars("ab");
    append_str(&mut text, "cd");
    assert_eq!(text, chars("abcd"));
    assert_eq!(slice_chars(&text, 1, 3), chars("bc"));
}

#[test]
fn characters_are_compared() {
    assert!(chars_eq(&chars("abc"), &chars("abc")));
    assert!(!chars_eq(&chars("abc"), &chars("abd")));
    assert!(!chars_eq(&chars("abc"), &chars("ab")));
    assert!(chars_eq_ignoring_case(&chars("AbC_1"), &chars("aBc_1")));
    assert!(!chars_eq_ignoring_case(&chars("a-b"), &chars("a_b")));
    assert!(chars_le(&chars(""), &chars("a")));
    assert!(chars_le(&chars("a"), &chars("a")));
    assert!(chars_le(&chars("a"), &chars("b")));
    assert!(chars_le(&chars("ab"), &chars("b")));
    assert!(!chars_le(&chars("b"), &chars("ab")));
    assert!(!chars_le(&chars("aa"), &chars("a")));
    assert!(starts_with(&chars("tb_x"), &chars("tb_")));
    assert!(!starts_with(&chars("tb"), &chars("tb_")));
    assert_eq!(find_char(&chars("a.b.c"), '.', 0), 1);
    assert_eq!(find_char(&chars("a.b.c"), '.', 2), 3);
    assert_eq!(find_char(&chars("a.b.c"), '.', 4), 5);
}

#[test]
fn numbers_are_written_and_read() {
    let mut out = Vec::new();
    push_decimal(&mut out, 0);
    push_decimal(&mut out, 7);
    push_decimal(&mut out, 1203);
    push_decimal(&mut out, 4294967295);
    assert_eq!(string_of(&out), "0712034294967295");
    let text = chars("x0042y4294967295z4294967296");
    assert_eq!(parse_number(&text, 1, 5), Some(42));
    assert_eq!(parse_number(&text, 6, 16), Some(4294967295));
    assert_eq!(parse_number(&text, 17, 27), None);
    assert_eq!(parse_number(&text, 0, 3), None);
    assert_eq!(parse_number(&text, 3, 3), None);
}

#[test]
fn documents_are_read_as_trees() {
    let doc = parse_document("a = 1\nb = [true, \"x\"]\n\n[t]\nk = 0.5\nd = 1979-05-27\n").unwrap();
    let expected = Node::Table(vec![
        ("a".to_string(), Node::Integer(1)),
        ("b".to_string(), Node::List(vec![Node::Boolean(true), Node::Text("x".to_string())])),
        (
            "t".to_string(),
            Node::Table(vec![("k".to_string(), Node::Other), ("d".to_string(), Node::Other)]),
        ),
    ]);
    assert_eq!(doc, expected);
    assert_eq!(parse_document("a = "), None);
    let root = doc.as_table().unwrap();
    assert_eq!(lookup(root, "a"), Some(&Node::Integer(1)));
    assert_eq!(lookup(root, "c"), None);
    assert_eq!(doc.as_text(), None);
    assert_eq!(Node::Integer(4).as_integer(), Some(4));
    assert_eq!(lookup(root, "b").unwrap().as_list().unwrap().len(), 2);
}

#[test]
fn documents_are_written_as_text() {
    let doc = Node::Table(vec![
        ("name".to_string(), Node::Text("x".to_string())),
        ("list".to_string(), Node::List(vec![Node::Integer(1)])),
    ]);
    let text = render_document(&doc).unwrap();
    assert_eq!(text, "name = \"x\"\nlist = [1]\n");
    assert_eq!(parse_document(&text), Some(doc));
    let odd = Node::Table(vec![("f".to_string(), Node::List(vec![Node::Other]))]);
    assert!(!check_renderable(&odd));
    assert_eq!(render_document(&odd), None);
    assert_eq!(render_document(&Node::Integer(1)), None);
}

#[test]
fn results_are_split() {
    let mixed: Vec<Result<u8, char>> = vec![Ok(1), Err('a'), Ok(2), Err('b')];
    assert_eq!(keep_successes(mixed.clone()), vec![1, 2]);
    assert_eq!(all_or_first_failure(mixed), Err('a'));
    let fine: Vec<Result<u8, char>> = vec![Ok(1), Ok(2)];
    assert_eq!(all_or_first_failure(fine), Ok(vec![1, 2]));
    assert_eq!(all_or_first_failure(Vec::<Result<u8, char>>::new()), Ok(Vec::new()));
}
