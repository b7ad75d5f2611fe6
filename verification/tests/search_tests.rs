use algokit::binary_search::binary_search;
use algokit::kmp::{kmp, kmp_all};

#[test]
fn length_is_even() {
    let a = [0, 1, 2, 3, 4, 5];
    assert_eq!(binary_search(&a, &5), 5);
}

#[test]
fn length_is_odd() {
    let a = [0, 1, 2, 3, 4];
    assert_eq!(binary_search(&a, &0), 0);
}

#[test]
fn empty() {
    let a = [];
    assert_eq!(binary_search(&a, &0), -1);
}

#[test]
fn middle() {
    let a = [0, 1, 2, 3, 4];
    assert_eq!(binary_search(&a, &2), 2);
}

#[test]
fn greater() {
    let a = [1, 2, 3, 4];
    assert_eq!(binary_search(&a, &5), -1);
}

#[test]
fn lower() {
    let a = [1, 2, 3, 4];
    assert_eq!(binary_search(&a, &0), -1);
}

#[test]
fn not_found() {
    let a = [1, 2, 4, 5];
    assert_eq!(binary_search(&a, &3), -1);
}

#[test]
fn each_letter_matches() {
    assert_eq!(kmp(b"a", b"aaa"), 0);
    assert_eq!(kmp_all(b"a", b"aaa"), vec![0, 1, 2]);
}

#[test]
fn a_few_separate_matches() {
    assert_eq!(kmp(b"ab", b"abababa"), 0);
    assert_eq!(kmp_all(b"ab", b"abababa"), vec![0, 2, 4]);
}

#[test]
fn one_match() {
    assert_eq!(kmp(b"ABCDABD", b"ABC ABCDAB ABCDABCDABDE"), 15);
    assert_eq!(kmp_all(b"ABCDABD", b"ABC ABCDAB ABCDABCDABDE"), vec![15]);
}

#[test]
fn lots_of_matches() {
    assert_eq!(kmp(b"aa", b"aaabaabaaaaa"), 0);
    assert_eq!(kmp_all(b"aa", b"aaabaabaaaaa"), vec![0, 1, 4, 7, 8, 9, 10]);
}

#[test]
fn lots_of_intricate_matches() {
    assert_eq!(kmp(b"aba", b"ababababa"), 0);
    assert_eq!(kmp_all(b"aba", b"ababababa"), vec![0, 2, 4, 6]);
}

#[test]
fn not_found0() {
    assert_eq!(kmp(b"f", b"abcde"), -1);
    assert_eq!(kmp_all(b"f", b"abcde"), vec![]);
}

#[test]
fn not_found1() {
    assert_eq!(kmp(b"ac", b"abcde"), -1);
    assert_eq!(kmp_all(b"ac", b"abcde"), vec![]);
}

#[test]
fn not_found2() {
    assert_eq!(kmp(b"bababa", b"ababab"), -1);
    assert_eq!(kmp_all(b"bababa", b"ababab"), vec![]);
}

#[test]
fn empty_pattern() {
    assert_eq!(kmp(b"", b"abcdef"), -1);
    assert_eq!(kmp_all(b"", b"abcdef"), vec![]);
}

#[test]
fn empty_txt() {
    assert_eq!(kmp(b"abcdef", b""), -1);
    assert_eq!(kmp_all(b"abcdef", b""), vec![]);
}

#[test]
fn pattern_longer_than_txt() {
    assert_eq!(kmp(b"abcdef", b"a"), -1);
    assert_eq!(kmp_all(b"abcdef", b"a"), vec![]);
}
