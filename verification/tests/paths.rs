use rojo_snapshot::imfs::is_below;
use rojo_snapshot::text::{
    chars_of, comes_before, ends_with, extension, file_name, file_stem, find_last, join, str_equal,
};

#[test]
fn file_name_is_what_follows_the_last_separator() {
    assert_eq!(file_name("a/b/c.txt"), "c.txt");
    assert_eq!(file_name("c.txt"), "c.txt");
    assert_eq!(file_name("/root"), "root");
    assert_eq!(file_name("a/b/"), "");
    assert_eq!(file_name(""), "");
    assert_eq!(file_name("dossier/été.lua"), "été.lua");
}

#[test]
fn file_stem_drops_the_extension() {
    assert_eq!(file_stem("a/b/c.txt"), "c");
    assert_eq!(file_stem("a/b/c.server.lua"), "c.server");
    assert_eq!(file_stem("a/b/c"), "c");
    assert_eq!(file_stem("a/b/.hidden"), ".hidden");
    assert_eq!(file_stem("a.b/c"), "c");
    assert_eq!(file_stem("a/c."), "c");
}

#[test]
fn extension_is_what_follows_the_last_dot() {
    assert_eq!(extension("a/b/c.txt"), Some("txt"));
    assert_eq!(extension("a/b/c.server.lua"), Some("lua"));
    assert_eq!(extension("a/b/c"), None);
    assert_eq!(extension("a/b/.hidden"), None);
    assert_eq!(extension("a.b/c"), None);
    assert_eq!(extension("a/c."), Some(""));
    assert_eq!(extension("a/.hidden.png"), Some("png"));
}

#[test]
fn join_puts_a_separator_between() {
    assert_eq!(join("a/b", "init.lua"), "a/b/init.lua");
    assert_eq!(join("", "x"), "/x");
}

#[test]
fn below_means_a_longer_path_under_the_directory() {
    assert!(is_below("a/b", "a/b/c"));
    assert!(is_below("a/b", "a/b/c/d"));
    assert!(is_below("", "/c"));
    assert!(!is_below("a/b", "a/b"));
    assert!(!is_below("a/b", "a/b/"));
    assert!(!is_below("a/b", "a/bc"));
    assert!(!is_below("a/b", "a/c/d"));
    assert!(!is_below("a/b", "a"));
}

#[test]
fn strings_are_compared_by_their_text() {
    assert!(str_equal("", ""));
    assert!(str_equal("héllo", "héllo"));
    assert!(!str_equal("hello", "hellp"));
    assert!(!str_equal("hello", "hell"));
}

#[test]
fn characters_are_found_from_the_end() {
    let chars = chars_of("a.b.c");
    assert_eq!(chars, vec!['a', '.', 'b', '.', 'c']);
    assert_eq!(find_last(&chars, '.'), Some(3));
    assert_eq!(find_last(&chars, 'a'), Some(0));
    assert_eq!(find_last(&chars, 'z'), None);
    assert_eq!(find_last(&Vec::new(), 'z'), None);
    assert!(ends_with(&chars, &chars_of(".c")));
    assert!(ends_with(&chars, &chars_of("")));
    assert!(!ends_with(&chars, &chars_of("b")));
    assert!(!ends_with(&chars_of("c"), &chars));
}

#[test]
fn texts_are_ordered_as_in_a_dictionary() {
    assert!(comes_before("", "a"));
    assert!(!comes_before("", ""));
    assert!(!comes_before("a", ""));
    assert!(comes_before("a", "b"));
    assert!(!comes_before("b", "a"));
    assert!(comes_before("a", "ab"));
    assert!(!comes_before("ab", "a"));
    assert!(comes_before("ab", "b"));
    assert!(comes_before("B", "a"));
    assert!(comes_before("a/b", "a/c"));
    assert!(comes_before("z", "\u{e9}"));
    assert!(!comes_before("same", "same"));
    let mut words = vec!["pear", "apple", "Apple", "fig", "figs", "", "\u{e9}clair"];
    let mut by_hand = words.clone();
    by_hand.sort_by(|a, b| {
        if comes_before(a, b) {
            std::cmp::Ordering::Less
        } else if comes_before(b, a) {
            std::cmp::Ordering::Greater
        } else {
            std::cmp::Ordering::Equal
        }
    });
    words.sort();
    assert_eq!(by_hand, words);
}
