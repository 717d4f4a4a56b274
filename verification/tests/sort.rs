use local_stack_core::sort::{SortKey, sort_order, stable_sort};

fn key(primary: u64, secondary: Option<u64>, tertiary: &str) -> SortKey {
    SortKey { primary, secondary, tertiary: tertiary.chars().collect() }
}

#[test]
fn sorts_by_each_key_field_in_turn() {
    let keys = vec![
        key(2, None, "b"),
        key(1, Some(5), "a"),
        key(1, None, "z"),
        key(1, Some(3), "c"),
        key(1, Some(3), "b"),
    ];
    assert_eq!(sort_order(&keys), vec![2, 4, 3, 1, 0]);
}

#[test]
fn equal_keys_keep_their_original_order() {
    let keys = vec![key(7, None, "x"), key(3, None, "x"), key(7, None, "x"), key(3, None, "x")];
    let items = vec!["first", "second", "third", "fourth"];
    assert_eq!(stable_sort(items, &keys), vec!["second", "fourth", "first", "third"]);
}

#[test]
fn text_keys_order_by_code_point() {
    let keys = vec![key(0, None, "ab"), key(0, None, "a"), key(0, None, "B"), key(0, None, "")];
    assert_eq!(sort_order(&keys), vec![3, 2, 1, 0]);
}
