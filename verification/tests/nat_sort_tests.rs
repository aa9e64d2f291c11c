use explorer_rs::nat_sort::natural_cmp;
use std::cmp::Ordering;

#[test]
fn numbers_in_names() {
    assert_eq!(natural_cmp("file2.txt", "file10.txt"), Ordering::Less);
    assert_eq!(natural_cmp("file10.txt", "file2.txt"), Ordering::Greater);
    assert_eq!(natural_cmp("file2.txt", "file2.txt"), Ordering::Equal);
}

#[test]
fn case_insensitive_letters() {
    assert_eq!(natural_cmp("Abc", "abc"), Ordering::Equal);
    assert_eq!(natural_cmp("a", "b"), Ordering::Less);
}

#[test]
fn mixed() {
    assert_eq!(natural_cmp("img2", "img10"), Ordering::Less);
    assert_eq!(natural_cmp("a100", "a99"), Ordering::Greater);
}

#[test]
fn natural_order_edge_cases() {
    // A prefix comes first.
    assert_eq!(natural_cmp("file", "file1"), Ordering::Less);
    assert_eq!(natural_cmp("", ""), Ordering::Equal);
    assert_eq!(natural_cmp("", "a"), Ordering::Less);
    // Leading zeros do not change a number's value.
    assert_eq!(natural_cmp("a007", "a7"), Ordering::Equal);
    // Numbers beyond u64 saturate and compare equal.
    assert_eq!(
        natural_cmp("x99999999999999999999", "x18446744073709551615"),
        Ordering::Equal
    );
    // A digit sorts before a letter.
    assert_eq!(natural_cmp("1", "a"), Ordering::Less);
    // Non-ASCII characters compare by code point.
    assert_eq!(natural_cmp("あ", "い"), Ordering::Less);
}

#[test]
fn natural_order_is_antisymmetric_on_samples() {
    let names = ["a1", "a10", "A2", "b", "B", "file2.txt", "file10.txt", "", "9", "10"];
    for x in names.iter() {
        for y in names.iter() {
            assert_eq!(natural_cmp(x, y), natural_cmp(y, x).reverse());
        }
    }
}
