use media_tagger::catalog::{
    catalog_entry, sorted_catalog, stable_order, text_less, Cleaner, Data, Demo,
};
use media_tagger::text::to_chars;

fn data(artist: &str, title: &str, index: &str) -> Data {
    Data {
        safeArtist: String::from(artist),
        safeTitle: String::from(title),
        image: String::new(),
        index: String::from(index),
    }
}

fn demo(title: &str, uri: &str) -> Demo {
    Demo { safeArtistTitle: String::from(title), Uri: String::from(uri) }
}

fn titles(list: &[Demo]) -> Vec<&str> {
    list.iter().map(|d| d.safeArtistTitle.as_str()).collect()
}

#[test]
fn entry_has_name_and_link() {
    let cleaner = Cleaner::new().unwrap();
    let entry = catalog_entry(&cleaner, &data("  Artist ", " Title/1 ", " 7 ")).unwrap();
    assert_eq!(entry.safeArtistTitle, "Artist - Title/1");
    assert_eq!(entry.Uri, "https://vk.ru/audio?q=Artist%20-%20Title%2F1");
}

#[test]
fn link_encodes_every_byte_outside_the_unreserved() {
    let cleaner = Cleaner::new().unwrap();
    let entry = catalog_entry(&cleaner, &data("Ёж", "a-b_c.d~e+f", "1")).unwrap();
    assert_eq!(entry.Uri, "https://vk.ru/audio?q=%D0%81%D0%B6%20-%20a-b_c.d~e%2Bf");
}

#[test]
fn one_of_artist_and_title_is_enough() {
    let cleaner = Cleaner::new().unwrap();
    assert_eq!(catalog_entry(&cleaner, &data("", "Title", "1")).unwrap().safeArtistTitle, " - Title");
    assert_eq!(catalog_entry(&cleaner, &data("Artist", " ", "1")).unwrap().safeArtistTitle, "Artist - ");
}

#[test]
fn tracks_without_a_name_are_left_out() {
    let cleaner = Cleaner::new().unwrap();
    assert!(catalog_entry(&cleaner, &data("", "  ", "1")).is_none());
    assert!(catalog_entry(&cleaner, &data("123", "4 5", "1")).is_none());
    assert!(catalog_entry(&cleaner, &data("!!!", "...", "1")).is_none());
    assert!(catalog_entry(&cleaner, &data("12a", "", "1")).is_some());
    assert!(catalog_entry(&cleaner, &data("_", "", "1")).is_some());
}

#[test]
fn tracks_without_an_index_are_left_out() {
    let cleaner = Cleaner::new().unwrap();
    assert!(catalog_entry(&cleaner, &data("Artist", "Title", "")).is_none());
    assert!(catalog_entry(&cleaner, &data("Artist", "Title", " \t")).is_none());
}

#[test]
fn cleaner_tells_names_from_noise() {
    let cleaner = Cleaner::new().unwrap();
    assert!(cleaner.has_name("a"));
    assert!(cleaner.has_name("12 é 34"));
    assert!(!cleaner.has_name(""));
    assert!(!cleaner.has_name("12 - 34"));
}

#[test]
fn dictionary_order_of_texts() {
    let samples = ["", "a", "ab", "b", "B", "é", "z", "\u{10000}", "\u{ffff}", "aa"];
    for x in samples {
        for y in samples {
            assert_eq!(text_less(&to_chars(x), &to_chars(y)), x < y, "{:?} {:?}", x, y);
        }
    }
}

#[test]
fn order_is_by_key_and_keeps_ties_in_place() {
    let keys: Vec<Vec<char>> = ["b", "a", "c", "a", "b", ""].iter().map(|k| to_chars(k)).collect();
    assert_eq!(stable_order(&keys), vec![5, 1, 3, 0, 4, 2]);
    assert_eq!(stable_order(&vec![]), Vec::<usize>::new());
}

#[test]
fn catalogue_is_ordered_without_regard_to_case() {
    let list = vec![demo("beta", "2"), demo("Alpha", "1"), demo("alpha", "3"), demo("Gamma", "4")];
    let sorted = sorted_catalog(&list);
    assert_eq!(titles(&sorted), vec!["Alpha", "alpha", "beta", "Gamma"]);
}

#[test]
fn catalogue_agrees_with_a_stable_sort_without_duplicates() {
    let names = ["b", "A", "a", "B", "c", "a", "A", "C", "ab", "Ab", "", "a"];
    let list: Vec<Demo> = names.iter().map(|n| demo(n, n)).collect();
    let mut sorted_names: Vec<(String, String)> =
        names.iter().map(|n| (n.to_string(), n.to_string())).collect();
    sorted_names.sort_by(|x, y| x.0.to_lowercase().cmp(&y.0.to_lowercase()));
    let mut expected: Vec<(String, String)> = Vec::new();
    for pair in sorted_names {
        if !expected.contains(&pair) {
            expected.push(pair);
        }
    }
    let sorted: Vec<(String, String)> = sorted_catalog(&list)
        .into_iter()
        .map(|d| (d.safeArtistTitle, d.Uri))
        .collect();
    assert_eq!(sorted, expected);
    assert_eq!(titles_of(&sorted), vec!["", "A", "a", "ab", "Ab", "b", "B", "c", "C"]);
}

#[test]
fn repeated_entries_are_listed_once() {
    let list = vec![demo("x", "1"), demo("a", "1"), demo("x", "1"), demo("x", "2"), demo("x", "2")];
    let sorted = sorted_catalog(&list);
    let pairs: Vec<(&str, &str)> =
        sorted.iter().map(|d| (d.safeArtistTitle.as_str(), d.Uri.as_str())).collect();
    assert_eq!(pairs, vec![("a", "1"), ("x", "1"), ("x", "2")]);
}

#[test]
fn repeats_that_are_apart_are_listed_once() {
    let list = vec![demo("Ab", "1"), demo("ab", "1"), demo("Ab", "1")];
    assert_eq!(titles(&sorted_catalog(&list)), vec!["Ab", "ab"]);
    let links = vec![demo("x", "1"), demo("x", "2"), demo("x", "1"), demo("X", "1")];
    let sorted = sorted_catalog(&links);
    let pairs: Vec<(&str, &str)> =
        sorted.iter().map(|d| (d.safeArtistTitle.as_str(), d.Uri.as_str())).collect();
    assert_eq!(pairs, vec![("x", "1"), ("x", "2"), ("X", "1")]);
}

fn titles_of(pairs: &[(String, String)]) -> Vec<&str> {
    pairs.iter().map(|p| p.0.as_str()).collect()
}

#[test]
fn patterns_of_the_cleaner_compile() {
    assert!(Cleaner::new().is_some());
}
