use revo::string::decimal_chars;
use revo::string::StringExt;

#[test]
fn test_fill_to_capacity() {
    // Test when the string is initially empty and the capacity is greater than the length
    let mut s = String::with_capacity(10);
    assert_eq!(s.len(), 0);
    assert_eq!(s.capacity(), 10);

    s.fill_to_capacity('a');

    // Now the string should have 'a' repeated from len() to capacity
    assert_eq!(s.len(), 10);
    assert_eq!(s.capacity(), 10);
    assert_eq!(s, "aaaaaaaaaa");

    // Test when the string is initially at its full capacity
    let mut s = String::with_capacity(10);
    s.push('b');
    s.push('b');
    s.push('b');

    assert_eq!(s.len(), 3);
    assert_eq!(s.capacity(), 10);

    s.fill_to_capacity('c');

    // Now the string should have 'b' at the start, and 'c' to fill up to the capacity
    assert_eq!(s.len(), 10);
    assert_eq!(s.capacity(), 10);
    assert_eq!(s, "bbbccccccc");

    // Test when the string already has the same length as the capacity
    let mut s = String::with_capacity(5);
    s.push('d');
    s.push('d');
    s.push('d');
    s.push('d');
    s.push('d');

    assert_eq!(s.len(), 5);
    assert_eq!(s.capacity(), 5);

    s.fill_to_capacity('e');

    // No changes should happen as the string's length equals the capacity
    assert_eq!(s.len(), 5);
    assert_eq!(s.capacity(), 5);
    assert_eq!(s, "ddddd");
}

#[test]
fn test_decimal_chars_zero() {
    assert_eq!(decimal_chars(0), vec!['0']);
}

#[test]
fn test_decimal_chars_multi_digit() {
    assert_eq!(decimal_chars(907), vec!['9', '0', '7']);
    assert_eq!(decimal_chars(10), vec!['1', '0']);
    assert_eq!(decimal_chars(5), vec!['5']);
}
