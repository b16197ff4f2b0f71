use hat::order::{comes_before, sort};

fn owned(texts: &[&str]) -> Vec<String> {
    texts.iter().map(|text| text.to_string()).collect()
}

#[test]
fn texts_are_sorted_as_std_sorts_them() {
    for list in [
        owned(&[]),
        owned(&["a"]),
        owned(&["b", "a"]),
        owned(&["b:2", "b:10", "a:1", "B:3", "", "é:1", "z:1", "中:5", "😀:9", "\u{ffff}:1"]),
        owned(&["same", "same", "other", "same"]),
        owned(&["abc", "ab", "a", "abcd"]),
    ] {
        let mut expected = list.clone();
        expected.sort();
        assert_eq!(sort(&list), expected);
    }
}

#[test]
fn order_is_that_of_strings() {
    let texts = owned(&["", "a", "A", "ab", "b", "é", "中", "😀", "\u{ffff}"]);
    for a in &texts {
        for b in &texts {
            assert_eq!(comes_before(a, b), a <= b, "{a:?} {b:?}");
        }
    }
}
