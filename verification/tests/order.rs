use keyboard_recorder::lex::token_lt;

#[test]
fn token_order_is_the_order_of_strings() {
    let samples = [
        "", "A", "B", "AB", "A+B", "a", "LShift", "LControl", "Key1", "Key10", "Key2", "é", "e",
        "z", "日本", "日", "\u{10FFFF}", "\u{FFFF}", "Z",
    ];
    for a in samples {
        for b in samples {
            assert_eq!(token_lt(a, b), a < b, "{:?} before {:?}", a, b);
        }
    }
}

#[test]
fn a_proper_prefix_comes_first() {
    assert!(token_lt("Key1", "Key10"));
    assert!(!token_lt("Key10", "Key1"));
    assert!(token_lt("", "A"));
    assert!(!token_lt("A", "A"));
}
