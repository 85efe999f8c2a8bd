use pixakit::text::{chars_of, push_decimal};

#[test]
fn decimal_rendering() {
    for n in [0u32, 7, 10, 99, 100, 123456, u32::MAX] {
        let mut v = Vec::new();
        push_decimal(&mut v, n);
        assert_eq!(v.iter().collect::<String>(), n.to_string());
    }
}

#[test]
fn decimal_appends() {
    let mut v = vec!['x'];
    push_decimal(&mut v, 42);
    assert_eq!(v, vec!['x', '4', '2']);
}

#[test]
fn chars_in_order() {
    assert_eq!(chars_of("hé/ü.png"), vec!['h', 'é', '/', 'ü', '.', 'p', 'n', 'g']);
    assert!(chars_of("").is_empty());
}

#[test]
fn concat_joins() {
    assert_eq!(pixakit::text::concat("ab", "cd"), "abcd");
    assert_eq!(pixakit::text::concat("", ""), "");
}
