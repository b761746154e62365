use cfg_matrix::text::{copy_all, decimal, join};

fn strings(items: &[&str]) -> Vec<String> {
    items.iter().map(|s| s.to_string()).collect()
}

#[test]
fn join_of_nothing_is_empty() {
    assert_eq!(join(&Vec::new(), ", "), "");
}

#[test]
fn join_of_one_has_no_separator() {
    assert_eq!(join(&strings(&["a"]), ", "), "a");
}

#[test]
fn join_puts_the_separator_between_neighbours() {
    assert_eq!(join(&strings(&["a", "b", "c"]), " + "), "a + b + c");
}

#[test]
fn join_keeps_empty_parts() {
    assert_eq!(join(&strings(&["", "b", ""]), ","), ",b,");
}

#[test]
fn decimal_of_small_and_large_numbers() {
    assert_eq!(decimal(0), "0");
    assert_eq!(decimal(7), "7");
    assert_eq!(decimal(10), "10");
    assert_eq!(decimal(409), "409");
    assert_eq!(decimal(usize::MAX), usize::MAX.to_string());
}

#[test]
fn copy_all_copies_in_order() {
    let items = strings(&["x", "", "z z"]);
    assert_eq!(copy_all(&items), items);
}
