use ghash::{common_prefix_len, precedes, MIN_PREFIX_LEN};

#[test]
fn common_prefix_len_counts_shared_characters() {
    assert_eq!(common_prefix_len("abc1", "abc2"), 3);
    assert_eq!(common_prefix_len("abcde100", "abcde200"), 5);
    assert_eq!(common_prefix_len("a1111", "b2222"), 0);
}

#[test]
fn common_prefix_len_of_empty_and_equal_strings() {
    assert_eq!(common_prefix_len("", ""), 0);
    assert_eq!(common_prefix_len("", "abc"), 0);
    assert_eq!(common_prefix_len("abc", ""), 0);
    assert_eq!(common_prefix_len("abcdef", "abcdef"), 6);
}

#[test]
fn common_prefix_len_stops_where_one_string_ends() {
    assert_eq!(common_prefix_len("abc", "abcdef"), 3);
    assert_eq!(common_prefix_len("abcdef", "abc"), 3);
}

#[test]
fn common_prefix_len_does_not_skip_a_difference() {
    assert_eq!(common_prefix_len("abxde", "abyde"), 2);
}

#[test]
fn common_prefix_len_is_symmetric() {
    for (a, b) in [("abc1", "abc2"), ("", "x"), ("abc", "abcd"), ("éé1", "éé2")] {
        assert_eq!(common_prefix_len(a, b), common_prefix_len(b, a));
    }
}

#[test]
fn common_prefix_len_counts_whole_characters() {
    assert_eq!(common_prefix_len("ééé1", "ééé2"), 3);
    assert_eq!(common_prefix_len("é", "è"), 0);
    assert_eq!(common_prefix_len("日本語", "日本人"), 2);
}

#[test]
fn precedes_orders_by_first_difference() {
    assert!(precedes("abc1", "abc2"));
    assert!(!precedes("abc2", "abc1"));
    assert!(precedes("a9", "b0"));
    assert!(!precedes("b0", "a9"));
}

#[test]
fn precedes_puts_a_prefix_first() {
    assert!(precedes("abc", "abcd"));
    assert!(!precedes("abcd", "abc"));
    assert!(precedes("", "a"));
    assert!(!precedes("a", ""));
}

#[test]
fn precedes_is_strict() {
    assert!(!precedes("", ""));
    assert!(!precedes("abc", "abc"));
}

#[test]
fn precedes_agrees_with_the_order_of_strings() {
    let samples = ["", "0", "00", "0a", "A", "a", "ab", "b", "é", "zz", "日本", "\u{10ffff}"];
    for a in samples {
        for b in samples {
            assert_eq!(precedes(a, b), a < b);
        }
    }
}

#[test]
fn floor_is_four() {
    assert_eq!(MIN_PREFIX_LEN, 4);
}
