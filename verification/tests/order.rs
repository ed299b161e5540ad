use qims_backend::order::{stable_order, SortKey};

fn keys(items: &[(u32, &str)]) -> Vec<SortKey> {
    items.iter().map(|(number, text)| SortKey { number: *number, text: text.to_string() }).collect()
}

#[test]
fn the_number_goes_before_the_text() {
    let order = stable_order(&keys(&[(10, "a"), (2, "b"), (2, "a"), (0, "z")]));
    assert_eq!(order, vec![3, 2, 1, 0]);
}

#[test]
fn equal_keys_stay_in_the_order_they_came_in() {
    let order = stable_order(&keys(&[(1, "x"), (1, "a"), (1, "x"), (1, "a")]));
    assert_eq!(order, vec![1, 3, 0, 2]);
}

#[test]
fn the_order_is_that_of_a_stable_sort() {
    let items: Vec<(u32, &str)> =
        (0..200u32).map(|i| ((i * 7919) % 13, ["b", "", "ab", "é", "a"][(i % 5) as usize])).collect();
    let mut expected: Vec<usize> = (0..items.len()).collect();
    expected.sort_by_key(|i| items[*i]);
    assert_eq!(stable_order(&keys(&items)), expected);
}

#[test]
fn each_position_is_held_once() {
    let mut order = stable_order(&keys(&[(3, ""), (3, ""), (1, "q"), (2, "")]));
    order.sort();
    assert_eq!(order, vec![0, 1, 2, 3]);
    assert_eq!(stable_order(&Vec::new()), Vec::<usize>::new());
}
