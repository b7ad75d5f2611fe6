use algokit::de_bruijn::de_bruijn;
use algokit::tree::{Node, Tree};
use algokit::dmatrix::SDMatrix;
use algokit::strings::{to_pascal_case, to_snake_case};

#[test]
fn de_bruijn_2_3() {
    assert_eq!(&de_bruijn(2, 3), "00010111")
}

#[test]
fn de_bruijn_2_4() {
    assert_eq!(&de_bruijn(2, 4), "0000100110101111")
}

#[test]
fn de_bruijn_3_2() {
    assert_eq!(&de_bruijn(3, 2), "001021122")
}

#[test]
fn snake_case_of_pascal() {
    assert_eq!(&to_snake_case("FooBarBaz"), "foo_bar_baz");
}

#[test]
fn pascal_case_of_snake() {
    assert_eq!(&to_pascal_case("foo_bar_baz"), "FooBarBaz");
}

#[test]
fn join_with_separator() {
    assert_eq!(&algokit::join::join(&[1, -2, 3], ", "), "1, -2, 3");
    assert_eq!(&algokit::join::join(&[], ", "), "");
    assert_eq!(&algokit::join::join(&[-9223372036854775808], "|"), "-9223372036854775808");
}

#[test]
fn gcd_values() {
    assert_eq!(algokit::gcd::gcd(12, 18), 6);
    assert_eq!(algokit::gcd::gcd(7, 0), 7);
    assert_eq!(algokit::gcd::gcd(0, 5), 5);
}

#[test]
fn reversort_sorts() {
    let mut a = [3, 1, 4, 1, 5, 9, 2, 6];
    algokit::reversort::reversort(&mut a);
    assert_eq!(a, [1, 1, 2, 3, 4, 5, 6, 9]);
}

#[test]
fn tree_depth() {
    let leaf1 = Node { value: 1, childs: vec![] };
    let leaf2 = Node { value: 2, childs: vec![] };
    let mid = Node { value: 3, childs: vec![leaf1] };
    let root = Node { value: 4, childs: vec![mid, leaf2] };
    let mut tree = Tree { node: root, depth: 0 };
    tree.dfs();
    assert_eq!(tree.depth, 2);
}

#[test]
fn dmatrix_search() {
    let mut g = SDMatrix::from_raw(vec![0; 9], 3);
    g.sset(0, 1, 1);
    g.sset(1, 2, 1);
    assert!(g.bfs(0));
    assert!(g.dfs(0));
    let h = SDMatrix::from_raw(vec![0; 9], 3);
    assert!(!h.bfs(0));
}
