use opal::text::{decimal_string, text_lt};

#[test]
fn decimal_of_single_digits() {
    assert_eq!(decimal_string(0), "0");
    assert_eq!(decimal_string(7), "7");
    assert_eq!(decimal_string(9), "9");
}

#[test]
fn decimal_of_longer_numbers() {
    assert_eq!(decimal_string(10), "10");
    assert_eq!(decimal_string(42), "42");
    assert_eq!(decimal_string(100), "100");
    assert_eq!(decimal_string(1234567), "1234567");
}

#[test]
fn decimal_agrees_with_std_up_to_a_thousand() {
    for n in 0..1000usize {
        assert_eq!(decimal_string(n), n.to_string());
    }
}

#[test]
fn decimal_of_largest_position() {
    assert_eq!(decimal_string(usize::MAX), usize::MAX.to_string());
}

#[test]
fn text_order_by_first_difference() {
    assert!(text_lt("Alpha", "Beta"));
    assert!(!text_lt("Beta", "Alpha"));
    assert!(text_lt("abc", "abd"));
    assert!(!text_lt("abd", "abc"));
}

#[test]
fn text_order_puts_prefix_first() {
    assert!(text_lt("Game", "Game 2"));
    assert!(!text_lt("Game 2", "Game"));
    assert!(text_lt("", "a"));
    assert!(!text_lt("a", ""));
}

#[test]
fn text_order_is_strict() {
    assert!(!text_lt("same", "same"));
    assert!(!text_lt("", ""));
}

#[test]
fn text_order_is_by_byte_not_by_case_folding() {
    // Upper case letters come before lower case ones.
    assert!(text_lt("Zeta", "alpha"));
    assert!(!text_lt("alpha", "Zeta"));
}

#[test]
fn text_order_on_non_ascii_agrees_with_std() {
    let names = ["Émile", "Emile", "Zoë", "Zoe", "日本", "日", "", "z", "ß"];
    for a in names.iter() {
        for b in names.iter() {
            assert_eq!(text_lt(a, b), a < b, "{:?} against {:?}", a, b);
        }
    }
}
