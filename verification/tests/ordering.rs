use recolour::text::{chars_of, compare, Order};

fn order(a: &str, b: &str) -> std::cmp::Ordering {
    match compare(a, b) {
        Order::Before => std::cmp::Ordering::Less,
        Order::Same => std::cmp::Ordering::Equal,
        Order::After => std::cmp::Ordering::Greater,
    }
}

#[test]
fn texts_are_compared_character_by_character() {
    let texts = ["", "a", "A", "ab", "abc", "abd", "b", "10", "9", "\u{e9}", "z", "\u{1f600}", "zz"];
    for a in texts {
        for b in texts {
            assert_eq!(order(a, b), a.cmp(b));
        }
    }
}

#[test]
fn prefix_comes_before_the_longer_text() {
    assert!(matches!(compare("gruv", "gruvbox"), Order::Before));
    assert!(matches!(compare("gruvbox", "gruv"), Order::After));
    assert!(matches!(compare("gruvbox", "gruvbox"), Order::Same));
}

#[test]
fn characters_are_handed_out_in_order() {
    assert_eq!(chars_of("a\u{e9}\u{1f600}z"), vec!['a', '\u{e9}', '\u{1f600}', 'z']);
    assert_eq!(chars_of(""), Vec::<char>::new());
}
