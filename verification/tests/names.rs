use std::cmp::Ordering::{Equal, Greater, Less};
use tfm::utils::{find_word, find_word_rev, natural_cmp, shrink_unicode_str, shrink_unicode_str_rev};

#[test]
fn test_natural_cmp() {
    assert_eq!(Less, natural_cmp("a1", "a2"));
    assert_eq!(Greater, natural_cmp("a2", "a1"));
    assert_eq!(Greater, natural_cmp("123a", "122"));
    assert_eq!(Less, natural_cmp("1a2", "1b1"));
    assert_eq!(Equal, natural_cmp("1a1", "1a1"));
    assert_eq!(Greater, natural_cmp("1a1a", "1a1"));
    assert_eq!(Less, natural_cmp("2", "10"));
    assert_eq!(Less, natural_cmp("foo2bar", "foo10bar"));
    assert_eq!(Greater, natural_cmp("foo2bar", "bar10bar"));
}

#[test]
fn test_shrink_unicode_str() {
    assert_eq!("站着说话", shrink_unicode_str("站着说话不腰疼", 8));
    assert_eq!("abcd站着说", shrink_unicode_str("abcd站着说话不腰疼", 11));
    assert_eq!("abcd🤣站着", shrink_unicode_str("abcd🤣站着说话不腰疼", 11));
    assert_eq!("abc", shrink_unicode_str("abcd🤣站着说话不腰疼", 3));
}

#[test]
fn test_shrink_unicode_str_rev() {
    assert_eq!("话不腰疼", shrink_unicode_str_rev("站着说话不腰疼", 8));
    assert_eq!("不腰疼abcd", shrink_unicode_str_rev("站着说话不腰疼abcd", 11));
    assert_eq!("腰疼🤣abcd", shrink_unicode_str_rev("站着说话不腰疼🤣abcd", 11));
    assert_eq!("bcd", shrink_unicode_str_rev("站着说话不腰疼🤣abcd", 3));
}

#[test]
fn natural_order_of_numbered_images() {
    assert_eq!(Less, natural_cmp("img2", "img10"));
    assert_eq!(Greater, natural_cmp("img10", "img2"));
    assert_eq!(Less, natural_cmp("a1", "a2"));
    assert_eq!(Less, natural_cmp("a2", "a10"));
    assert_eq!(Equal, natural_cmp("1a1", "1a1"));
}

#[test]
fn natural_order_ignores_ascii_case() {
    assert_eq!(Equal, natural_cmp("README", "readme"));
    assert_eq!(Less, natural_cmp("Apple", "banana"));
    assert_eq!(Greater, natural_cmp("b", "A"));
}

#[test]
fn natural_order_of_long_numbers() {
    assert_eq!(Less, natural_cmp("99999999999999999999999998", "99999999999999999999999999"));
    assert_eq!(Less, natural_cmp("9", "100000000000000000000000000000"));
    assert_eq!(Equal, natural_cmp("a007", "a7"));
    assert_eq!(Less, natural_cmp("a007", "a8"));
    assert_eq!(Greater, natural_cmp("a010", "a9"));
}

#[test]
fn natural_order_shorter_name_first() {
    assert_eq!(Less, natural_cmp("", "a"));
    assert_eq!(Greater, natural_cmp("a", ""));
    assert_eq!(Equal, natural_cmp("", ""));
    assert_eq!(Less, natural_cmp("abc", "abc1"));
}

#[test]
fn shrink_keeps_what_fits() {
    assert_eq!("abc", shrink_unicode_str("abc", 10));
    assert_eq!("", shrink_unicode_str("abc", 0));
    assert_eq!("", shrink_unicode_str("站", 1));
    assert_eq!("abc", shrink_unicode_str_rev("abc", 10));
    assert_eq!("", shrink_unicode_str_rev("abc", 0));
    assert_eq!("", shrink_unicode_str_rev("站", 1));
}

#[test]
fn find_word_goes_back_over_separators_and_word() {
    assert_eq!((11, 6), find_word("hello world", 11));
    assert_eq!((6, 0), find_word("hello world", 6));
    assert_eq!((0, 0), find_word("hello world", 0));
    assert_eq!((12, 12), find_word("hello world", 12));
    assert_eq!((9, 7), find_word("/tmp/a.b/", 9));
    assert_eq!((8, 7), find_word("/tmp/a.b", 8));
    assert_eq!((7, 5), find_word("/tmp/a.b", 7));
    assert_eq!((3, 0), find_word("   ", 3));
}

#[test]
fn find_word_rev_goes_on_over_separators_and_word() {
    assert_eq!((0, 5), find_word_rev("hello world", 0));
    assert_eq!((5, 11), find_word_rev("hello world", 5));
    assert_eq!((11, 11), find_word_rev("hello world", 11));
    assert_eq!((0, 4), find_word_rev("/tmp/a.b", 0));
    assert_eq!((4, 6), find_word_rev("/tmp/a.b", 4));
    assert_eq!((0, 3), find_word_rev("   ", 0));
}

#[test]
fn find_word_in_wide_text() {
    assert_eq!((13, 7), find_word("站着 说话", 13));
    assert_eq!((0, 6), find_word_rev("站着 说话", 0));
}

#[test]
fn numbers_that_are_the_same_do_not_decide() {
    assert_eq!(Less, natural_cmp("a01b", "a1c"));
    assert_eq!(Greater, natural_cmp("a1c", "a01b"));
    assert_eq!(Equal, natural_cmp("a01b", "a1b"));
    assert_eq!(Greater, natural_cmp("a1c", "a1b"));
    assert_eq!(Less, natural_cmp("x007y2", "x7y10"));
    assert_eq!(Equal, natural_cmp("000", "0"));
    assert_eq!(Less, natural_cmp("v1.02", "v01.3"));
}

#[test]
fn natural_order_passes_on() {
    let names = [
        "", "a", "A", "a1", "a01", "a001b", "a1b", "a1c", "a01b", "a2", "a10", "a010", "b", "1", "01", "1a", "10",
        "9z", "-", "~", "a-1", "a~1", "a 1", "img2", "img10", "IMG3", "0", "00",
    ];
    for a in names {
        assert_eq!(Equal, natural_cmp(a, a));
        for b in names {
            assert_eq!(natural_cmp(a, b), natural_cmp(b, a).reverse(), "{} {}", a, b);
            for c in names {
                if natural_cmp(a, b) != Greater && natural_cmp(b, c) != Greater {
                    assert_ne!(Greater, natural_cmp(a, c), "{} {} {}", a, b, c);
                }
            }
        }
    }
}
