use std::collections::BTreeMap;

use sitegen::render::{render_all, Page};

fn write(directory: &mut BTreeMap<String, String>, pages: &[Page]) {
    for page in pages {
        directory.insert(page.file_name.clone(), page.html.clone());
    }
}

fn documents(texts: &[&str]) -> Vec<String> {
    texts.iter().map(|text| String::from(*text)).collect()
}

#[test]
fn generating_twice_leaves_the_same_files() {
    let pages = render_all(&documents(&["# One", "two", "three\n"]));
    let mut directory = BTreeMap::new();
    directory.insert(String::from("style.css"), String::from("body {}"));
    write(&mut directory, &pages);
    let once = directory.clone();
    write(&mut directory, &pages);
    assert_eq!(directory, once);
    assert_eq!(directory.len(), 4);
    assert_eq!(directory["# One.html"], "<h1>One</h1>");
    assert_eq!(directory["style.css"], "body {}");
}

#[test]
fn the_order_of_the_documents_does_not_show_in_the_files() {
    let first = render_all(&documents(&["# One", "two", "three\n"]));
    let second = render_all(&documents(&["three\n", "# One", "two", "# One"]));
    let mut one_way = BTreeMap::new();
    write(&mut one_way, &first);
    let mut other_way = BTreeMap::new();
    write(&mut other_way, &second);
    assert_eq!(one_way, other_way);
    let mut both = one_way.clone();
    write(&mut both, &second);
    assert_eq!(both, one_way);
}

#[test]
fn a_page_replaces_an_older_file_of_its_name() {
    let mut directory = BTreeMap::new();
    directory.insert(String::from("two.html"), String::from("stale"));
    write(&mut directory, &render_all(&documents(&["two"])));
    assert_eq!(directory.len(), 1);
    assert_eq!(directory["two.html"], "<p>two</p>");
}

#[test]
fn generating_from_nothing_writes_nothing() {
    let mut directory = BTreeMap::new();
    directory.insert(String::from("kept.html"), String::from("kept"));
    let before = directory.clone();
    write(&mut directory, &render_all(&documents(&[])));
    assert_eq!(directory, before);
}
