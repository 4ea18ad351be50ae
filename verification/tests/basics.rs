use kdeocr::arith::{capped_product, capped_sum, count_parts};
use kdeocr::names::{comes_before, NameMap};
use kdeocr::order::sort_order;
use kdeocr::path::{command_candidates, display_path, has_parent_component, join, show_path};
use kdeocr::text::{
    decimal_text, from_chars, join as join_texts, parse_unsigned, same_text, split,
    starts_with, to_chars, trim, white_space,
};

#[test]
fn white_space_is_that_of_unicode() {
    for code in 0..=0x10ffffu32 {
        if let Some(character) = char::from_u32(code) {
            assert_eq!(white_space(character), character.is_whitespace(), "{code:x}");
        }
    }
}

#[test]
fn texts_are_trimmed_and_split() {
    for text in ["", " ", " a b ", "\u{3000}x\n", "x", "\u{200b} y"] {
        assert_eq!(from_chars(trim(&to_chars(text))), text.trim());
    }
    for text in ["", "+", "a+b", "+a++b+"] {
        let parts: Vec<String> = split(&to_chars(text), '+')
            .iter()
            .map(|part| from_chars(part))
            .collect();
        assert_eq!(parts, text.split('+').collect::<Vec<_>>());
        assert_eq!(join_texts(&parts, "+"), text);
    }
    assert!(starts_with(&['a', 'b'], &['a']));
    assert!(!starts_with(&['a'], &['a', 'b']));
    assert!(same_text("é", "é"));
    assert!(!same_text("e", "é"));
    assert_eq!(kdeocr::text::concat("a", "b"), "ab");
}

#[test]
fn numbers_are_written_and_read() {
    for number in [0u64, 7, 10, 99, 100, 4_294_967_295, u64::MAX] {
        assert_eq!(decimal_text(number), number.to_string());
    }
    for text in [
        "0", "+0", "007", "4294967295", "4294967296", "", "+", "++1", "-1", "1a", " 1",
        "99999999999999999999999999", "١",
    ] {
        assert_eq!(
            parse_unsigned(&to_chars(text)),
            text.parse::<u32>().ok(),
            "{text}"
        );
    }
}

#[test]
fn sorting_is_stable() {
    let keys = vec![3, 1, 2, 1, 3, 0, 2];
    let mut expected: Vec<usize> = (0..keys.len()).collect();
    expected.sort_by_key(|position| keys[*position]);
    assert_eq!(sort_order(&keys), expected);
    assert_eq!(sort_order(&vec![]), Vec::<usize>::new());
}

#[test]
fn names_are_kept_in_order() {
    for (left, right) in [("a", "b"), ("a", "ab"), ("", "a"), ("é", "z"), ("b", "a")] {
        assert_eq!(comes_before(left, right), left < right);
        assert_eq!(comes_before(right, left), right < left);
    }
    assert!(!comes_before("a", "a"));
    let mut map = NameMap::new();
    assert!(map.is_empty());
    for (name, value) in [("b", 1), ("a", 2), ("c", 3), ("b", 4)] {
        map.insert(name.to_owned(), value);
    }
    let listed: Vec<_> = map
        .entries
        .iter()
        .map(|(name, value)| (name.as_str(), *value))
        .collect();
    assert_eq!(listed, vec![("a", 2), ("b", 4), ("c", 3)]);
    assert_eq!(map.get("b"), Some(&4));
    map.remove("b");
    map.remove("x");
    assert_eq!(map.get("b"), None);
    assert_eq!(map.len(), 2);
}

#[test]
fn paths_are_joined() {
    for (base, name) in [
        ("/a", "b"),
        ("/a/", "b"),
        ("", "b"),
        ("/a", "/b"),
        ("/", "b"),
        ("a", ""),
        (".", ".config"),
    ] {
        assert_eq!(
            join(base, name),
            std::path::Path::new(base).join(name).display().to_string()
        );
    }
    for path in ["a/../b", "..", "a/..b", "a..", "./a", "../", ""] {
        let expected = std::path::Path::new(path)
            .components()
            .any(|component| matches!(component, std::path::Component::ParentDir));
        assert_eq!(has_parent_component(path), expected, "{path}");
    }
    assert_eq!(
        command_candidates("/usr/bin::/bin/", "curl"),
        vec!["/usr/bin/curl", "curl", "/bin/curl"]
    );
}

#[test]
fn paths_are_shown_from_home() {
    let home = Some("/home/user".to_owned());
    assert_eq!(display_path("/home/user/m/a", &home), "~/m/a");
    assert_eq!(display_path("/home/users/m", &home), "/home/users/m");
    assert_eq!(display_path("/home/user/m", &None), "/home/user/m");
    assert_eq!(show_path("/x", &Some("y".to_owned())), "~/y");
    assert_eq!(show_path("/x", &None), "/x");
}

#[test]
fn arithmetic_is_capped() {
    assert_eq!(capped_product(0x1_0000, 0x1_0000), u32::MAX);
    assert_eq!(capped_product(3, 4), 12);
    assert_eq!(capped_sum(u32::MAX, 1), u32::MAX);
    assert_eq!(capped_sum(3, 4), 7);
    assert_eq!(count_parts(10, 3), 4);
    assert_eq!(count_parts(9, 3), 3);
    assert_eq!(count_parts(0, 3), 0);
    assert_eq!(count_parts(u64::MAX, 1), u64::MAX);
}
