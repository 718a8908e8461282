use raze_planner::error::{build_planner_err, metadata_fetcher_err};
use raze_planner::order::sort;
use raze_planner::string_map::StringMap;
use raze_planner::text::{
    at_most, chars_of, contains_text, copy_of, debug_list_of, find_first, full_name_of,
    starts_with, tail_from,
};

fn strings(items: &[&str]) -> Vec<String> {
    items.iter().map(|s| s.to_string()).collect()
}

#[test]
fn errors_name_their_component() {
    let planner = build_planner_err("Finding root crate details");
    assert_eq!(planner.component, "BuildPlanner");
    assert_eq!(planner.message, "Finding root crate details");
    let fetcher = metadata_fetcher_err("creating tempdir");
    assert_eq!(fetcher.component, "MetadataFetcher");
    assert_eq!(fetcher.message, "creating tempdir");
    assert_eq!(fetcher.clone().message, "creating tempdir");
}

#[test]
fn order_is_that_of_std() {
    let samples = ["", "a", "A", "ab", "b", "-", "a-b", "a_b", "\u{e9}", "\u{1f600}", "\u{ffff}"];
    for a in samples.iter() {
        for b in samples.iter() {
            assert_eq!(at_most(a, b), a <= b, "{:?} {:?}", a, b);
        }
    }
}

#[test]
fn sorting_strings_is_that_of_std() {
    let items = strings(&["serde", "libc", "serde", "", "rand", "Zed", "libc-sys", "\u{e9}"]);
    let mut expected = items.clone();
    expected.sort();
    assert_eq!(sort(items), expected);
}

#[test]
fn search_finds_the_first_occurrence_in_characters() {
    assert_eq!(find_first("abcabc", "bc"), Some(1));
    assert_eq!(find_first("abcabc", "cb"), None);
    assert_eq!(find_first("abc", ""), Some(0));
    assert_eq!(find_first("", ""), Some(0));
    assert_eq!(find_first("", "a"), None);
    assert_eq!(find_first("abc", "abcd"), None);
    assert_eq!(find_first("\u{e9}\u{e9}x", "x"), Some(2));
    assert_eq!(find_first("aab", "ab"), Some(1));
}

#[test]
fn parts_of_strings() {
    assert!(starts_with("./src", "./"));
    assert!(!starts_with(".", "./"));
    assert!(!starts_with("/./", "./"));
    assert_eq!(tail_from("./src", 2), "src");
    assert_eq!(tail_from("\u{e9}a", 1), "a");
    assert_eq!(tail_from("ab", 2), "");
    assert_eq!(chars_of("a\u{e9}"), vec!['a', '\u{e9}']);
    assert_eq!(full_name_of("serde", "1.0.0"), "serde-1.0.0");
}

#[test]
fn lists_of_strings() {
    let items = strings(&["a", "b"]);
    assert!(contains_text(&items, &"b".to_string()));
    assert!(!contains_text(&items, &"c".to_string()));
    assert!(!contains_text(&Vec::new(), &"".to_string()));
    assert_eq!(copy_of(&items), items);
}

#[test]
fn debug_lists_are_those_of_std() {
    for items in [
        strings(&[]),
        strings(&["a"]),
        strings(&["a", "b \"quoted\"", "c\n", "\u{e9}", "\u{200b}", "\\"]),
    ] {
        assert_eq!(debug_list_of(&items), format!("{:?}", items));
    }
}

#[test]
fn a_later_insertion_replaces_an_earlier_one() {
    let mut map: StringMap<u64> = StringMap::new();
    assert_eq!(map.get(&"a".to_string()), None);
    map.insert("a".to_string(), 1);
    map.insert("b".to_string(), 2);
    map.insert("a".to_string(), 3);
    assert_eq!(map.get(&"a".to_string()), Some(&3));
    assert_eq!(map.get(&"b".to_string()), Some(&2));
    assert_eq!(map.get(&"c".to_string()), None);
}
