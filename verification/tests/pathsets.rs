use tfm::paths::{ancestors, base_name, join, rebase, sibling, PathSet};
use tfm::reg::Reg;
use tfm::text::{contains_bytes, decimal, fold, str_eq};
use tfm::utils::is_hidden;
use tfm::file::{File, FileType};

#[test]
fn path_set_keeps_order_and_has_no_path_twice() {
    let mut set = PathSet::new();
    assert!(set.is_empty());
    set.insert("/a".to_string());
    set.insert("/b".to_string());
    set.insert("/a".to_string());
    assert_eq!(2, set.len());
    assert_eq!(vec!["/a".to_string(), "/b".to_string()], set.items);
    assert!(set.contains("/a"));
    assert!(!set.contains("/c"));
    set.toggle("/c");
    set.toggle("/a");
    assert_eq!(vec!["/b".to_string(), "/c".to_string()], set.items);
    set.remove("/x");
    set.remove("/b");
    assert_eq!(vec!["/c".to_string()], set.items);
    set.clear();
    assert!(set.is_empty());
}

#[test]
fn ancestors_of_paths() {
    assert_eq!(vec!["/", "/home", "/home/me"], ancestors("/home/me"));
    assert_eq!(vec!["/"], ancestors("/"));
    assert_eq!(vec!["/", "/a"], ancestors("/a/"));
    assert_eq!(vec!["a", "a/b"], ancestors("a/b"));
    assert_eq!(Vec::<String>::new(), ancestors(""));
    assert_eq!(vec!["/", "/站", "/站/着"], ancestors("/站/着"));
}

#[test]
fn names_and_joins() {
    assert_eq!("me", base_name("/home/me"));
    assert_eq!("", base_name("/"));
    assert_eq!("b", base_name("/a/b/"));
    assert_eq!("b", base_name("/a/b//"));
    assert_eq!("", base_name(""));
    assert_eq!("", base_name("//"));
    assert_eq!("a.txt", base_name("a.txt"));
    assert_eq!("着", base_name("/站/着"));
    assert_eq!("/home/me", join("/home", "me"));
    assert_eq!("/me", join("/", "me"));
    assert_eq!("me", join("", "me"));
    assert_eq!("/home/you", sibling("/home/me", "you"));
    assert_eq!("you", sibling("me", "you"));
    assert_eq!("/you", sibling("/me", "you"));
    assert_eq!("/a/x", sibling("/a/b/", "x"));
}

#[test]
fn numbers_in_decimal() {
    assert_eq!("0", decimal(0));
    assert_eq!("7", decimal(7));
    assert_eq!("10", decimal(10));
    assert_eq!("12345", decimal(12345));
    assert_eq!("18446744073709551615", decimal(u64::MAX));
}

#[test]
fn text_tools() {
    assert!(str_eq("abc", "abc"));
    assert!(!str_eq("abc", "abd"));
    assert!(!str_eq("abc", "ab"));
    assert!(str_eq("", ""));
    assert_eq!(b"abc-1".to_vec(), fold("AbC-1"));
    assert!(contains_bytes(&b"bc".to_vec(), &b"abcd".to_vec()));
    assert!(contains_bytes(&b"".to_vec(), &b"".to_vec()));
    assert!(contains_bytes(&b"abcd".to_vec(), &b"abcd".to_vec()));
    assert!(!contains_bytes(&b"abcde".to_vec(), &b"abcd".to_vec()));
    assert!(!contains_bytes(&b"bd".to_vec(), &b"abcd".to_vec()));
}

fn named(name: &str) -> File {
    File::new(name.to_string(), name.to_string(), FileType::RegularFile, None, 0o100644, 0, 0, 0, 0)
}

#[test]
fn hidden_names() {
    assert!(is_hidden(&named(".git")));
    assert!(is_hidden(&named("..")));
    assert!(!is_hidden(&named(".")));
    assert!(!is_hidden(&named("")));
    assert!(!is_hidden(&named("a.b")));
    assert!(is_hidden(&named(".站")));
}

#[test]
fn preview_of_a_file() {
    let mut reg = Reg::new("/a");
    assert_eq!(("/a", 0, 0), (reg.path.as_str(), reg.lines.len(), reg.loadtime));
    reg.update(vec!["x".to_string()], 5);
    assert_eq!((vec!["x".to_string()], 5), (reg.lines.clone(), reg.loadtime));
    reg.update(Vec::new(), 6);
    assert_eq!(vec!["\x1b[7mbinary\x1b[0m".to_string()], reg.lines);
}

#[test]
fn paths_are_carried_over_to_another_tree() {
    assert_eq!(Some("/dst/a".to_string()), rebase("/src/a", "/src/a", "/dst/a"));
    assert_eq!(Some("/dst/a/b/c".to_string()), rebase("/src/a/b/c", "/src/a", "/dst/a"));
    assert_eq!(Some("/dst/a.~1~/b".to_string()), rebase("/src/a/b", "/src/a", "/dst/a.~1~"));
    assert_eq!(Some("/dst/x".to_string()), rebase("/x", "/", "/dst"));
    assert_eq!(None, rebase("/other/a", "/src", "/dst"));
    assert_eq!(None, rebase("/s", "/src", "/dst"));
    assert_eq!(None, rebase("/src/ab", "/src/a", "/dst"));
    assert_eq!(Some("/dst/b".to_string()), rebase("/src/a/b", "/src/a/", "/dst"));
}
