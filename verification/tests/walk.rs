use sitegen::walk::{Action, Entry, Event, Visit, Walk};

/// A file or directory of a tree held in memory. Its location is its index.
struct Node {
    is_dir: bool,
    extension: Option<&'static str>,
    /// The text of a file that can be read.
    text: Option<&'static str>,
    /// The entries of a directory that can be listed.
    listing: Option<Vec<usize>>,
}

fn file(extension: Option<&'static str>, text: Option<&'static str>) -> Node {
    Node { is_dir: false, extension, text, listing: None }
}

fn dir(extension: Option<&'static str>, listing: Option<Vec<usize>>) -> Node {
    Node { is_dir: true, extension, text: None, listing }
}

fn entry(nodes: &[Node], at: usize) -> Entry<usize> {
    Entry {
        path: at,
        is_dir: nodes[at].is_dir,
        extension: nodes[at].extension.map(String::from),
    }
}

/// What a walk over the tree did: the locations it listed, the locations it
/// read, and the documents it ended with.
struct Course {
    listed: Vec<usize>,
    read: Vec<usize>,
    documents: Vec<String>,
}

fn walk(nodes: &[Node], root: usize) -> Course {
    let mut course = Course { listed: Vec::new(), read: Vec::new(), documents: Vec::new() };
    let (mut walk, mut action) = Walk::start(root, nodes[root].is_dir);
    let mut steps = 0;
    loop {
        let event = match action {
            Action::List(at) => {
                course.listed.push(at);
                Event::Listed(
                    nodes[at]
                        .listing
                        .as_ref()
                        .map(|listing| listing.iter().map(|&child| entry(nodes, child)).collect()),
                )
            }
            Action::Read(at) => {
                course.read.push(at);
                Event::Read(nodes[at].text.map(String::from))
            }
            Action::Done => break,
        };
        action = walk.step(event);
        steps += 1;
        assert!(steps <= nodes.len(), "the walk asked for more than the tree holds");
    }
    course.documents = walk.into_documents();
    course
}

#[test]
fn markdown_files_are_read_and_all_others_ignored() {
    // content/
    //   a.md  b.txt  c  d.md
    let nodes = vec![
        dir(None, Some(vec![1, 2, 3, 4])),
        file(Some("md"), Some("alpha")),
        file(Some("txt"), Some("beta")),
        file(None, Some("gamma")),
        file(Some("md"), Some("delta")),
    ];
    let course = walk(&nodes, 0);
    assert_eq!(course.read, vec![1, 4]);
    assert_eq!(course.listed, vec![0]);
    assert_eq!(course.documents, vec!["alpha", "delta"]);
}

#[test]
fn nesting_depth_does_not_matter() {
    // 0/ { 1.md, 2/ { 3/ { 4/ { 5.md, 6.html } }, 7.md }, 8.rs, 9.md }
    let nodes = vec![
        dir(None, Some(vec![1, 2, 8, 9])),
        file(Some("md"), Some("one")),
        dir(None, Some(vec![3, 7])),
        dir(None, Some(vec![4])),
        dir(None, Some(vec![5, 6])),
        file(Some("md"), Some("five")),
        file(Some("html"), Some("six")),
        file(Some("md"), Some("seven")),
        file(Some("rs"), Some("eight")),
        file(Some("md"), Some("nine")),
    ];
    let course = walk(&nodes, 0);
    assert_eq!(course.read.len(), 4);
    assert_eq!(course.documents.len(), 4);
    assert_eq!(course.read, vec![1, 5, 7, 9]);
    assert_eq!(course.documents, vec!["one", "five", "seven", "nine"]);
}

#[test]
fn directories_are_entered_depth_first_in_listing_order() {
    // 0/ { 1/ { 2.md, 3/ { 4.md } }, 5.md, 6/ { 7.md } }
    let nodes = vec![
        dir(None, Some(vec![1, 5, 6])),
        dir(None, Some(vec![2, 3])),
        file(Some("md"), Some("two")),
        dir(None, Some(vec![4])),
        file(Some("md"), Some("four")),
        file(Some("md"), Some("five")),
        dir(None, Some(vec![7])),
        file(Some("md"), Some("seven")),
    ];
    let course = walk(&nodes, 0);
    assert_eq!(course.listed, vec![0, 1, 3, 6]);
    assert_eq!(course.read, vec![2, 4, 5, 7]);
    assert_eq!(course.documents, vec!["two", "four", "five", "seven"]);
}

#[test]
fn a_listing_is_followed_in_the_order_it_was_given() {
    let nodes = vec![
        dir(None, Some(vec![3, 1, 2])),
        file(Some("md"), Some("one")),
        file(Some("md"), Some("two")),
        file(Some("md"), Some("three")),
    ];
    assert_eq!(walk(&nodes, 0).documents, vec!["three", "one", "two"]);
}

#[test]
fn an_empty_directory_gives_no_documents() {
    let nodes = vec![dir(None, Some(vec![]))];
    let course = walk(&nodes, 0);
    assert_eq!(course.listed, vec![0]);
    assert!(course.read.is_empty());
    assert!(course.documents.is_empty());
}

#[test]
fn a_tree_of_empty_directories_gives_no_documents() {
    let nodes = vec![
        dir(None, Some(vec![1, 2])),
        dir(None, Some(vec![])),
        dir(None, Some(vec![3])),
        dir(None, Some(vec![])),
    ];
    let course = walk(&nodes, 0);
    assert_eq!(course.listed, vec![0, 1, 2, 3]);
    assert!(course.documents.is_empty());
}

#[test]
fn a_root_that_is_no_directory_ends_the_walk_at_once() {
    let nodes = vec![file(Some("md"), Some("alone"))];
    let (walk, action) = Walk::start(0usize, nodes[0].is_dir);
    assert_eq!(action, Action::Done);
    assert!(walk.into_documents().is_empty());
}

#[test]
fn a_root_that_is_a_directory_is_listed_first() {
    let (_, action) = Walk::start("content", true);
    assert_eq!(action, Action::List("content"));
}

#[test]
fn a_file_that_cannot_be_read_is_passed_over() {
    let nodes = vec![
        dir(None, Some(vec![1, 2, 3])),
        file(Some("md"), Some("one")),
        file(Some("md"), None),
        file(Some("md"), Some("three")),
    ];
    let course = walk(&nodes, 0);
    assert_eq!(course.read, vec![1, 2, 3]);
    assert_eq!(course.documents, vec!["one", "three"]);
}

#[test]
fn a_directory_that_cannot_be_listed_is_passed_over() {
    let nodes = vec![
        dir(None, Some(vec![1, 2, 3])),
        file(Some("md"), Some("one")),
        dir(None, None),
        file(Some("md"), Some("three")),
    ];
    let course = walk(&nodes, 0);
    assert_eq!(course.listed, vec![0, 2]);
    assert_eq!(course.documents, vec!["one", "three"]);
}

#[test]
fn a_root_that_cannot_be_listed_gives_no_documents() {
    let nodes = vec![dir(None, None)];
    let course = walk(&nodes, 0);
    assert_eq!(course.listed, vec![0]);
    assert!(course.documents.is_empty());
}

#[test]
fn a_directory_is_entered_whatever_its_name() {
    let nodes = vec![
        dir(None, Some(vec![1])),
        dir(Some("md"), Some(vec![2])),
        file(Some("md"), Some("inside")),
    ];
    let course = walk(&nodes, 0);
    assert_eq!(course.listed, vec![0, 1]);
    assert_eq!(course.read, vec![2]);
    assert_eq!(course.documents, vec!["inside"]);
}

#[test]
fn the_extension_must_match_exactly() {
    let nodes = vec![
        dir(None, Some(vec![1, 2, 3, 4, 5, 6])),
        file(Some("MD"), Some("upper")),
        file(Some("Md"), Some("mixed")),
        file(Some("mdx"), Some("longer")),
        file(Some("m"), Some("shorter")),
        file(Some(""), Some("empty")),
        file(Some("markdown"), Some("spelled out")),
    ];
    let course = walk(&nodes, 0);
    assert!(course.read.is_empty());
    assert!(course.documents.is_empty());
}

#[test]
fn documents_with_the_same_text_are_each_kept() {
    let nodes = vec![
        dir(None, Some(vec![1, 2])),
        file(Some("md"), Some("same")),
        file(Some("md"), Some("same")),
    ];
    assert_eq!(walk(&nodes, 0).documents, vec!["same", "same"]);
}

#[test]
fn an_entry_is_visited_by_kind_and_extension() {
    let visit = |is_dir: bool, extension: Option<&str>| {
        Entry { path: (), is_dir, extension: extension.map(String::from) }.visit()
    };
    assert_eq!(visit(true, None), Visit::Descend);
    assert_eq!(visit(true, Some("md")), Visit::Descend);
    assert_eq!(visit(true, Some("txt")), Visit::Descend);
    assert_eq!(visit(false, Some("md")), Visit::Read);
    assert_eq!(visit(false, Some("txt")), Visit::Skip);
    assert_eq!(visit(false, None), Visit::Skip);
}

#[test]
fn a_step_names_the_first_entry_that_asks_for_work() {
    let (mut walk, _) = Walk::start(0u32, true);
    let listing = vec![
        Entry { path: 1, is_dir: false, extension: Some(String::from("txt")) },
        Entry { path: 2, is_dir: false, extension: None },
        Entry { path: 3, is_dir: false, extension: Some(String::from("md")) },
        Entry { path: 4, is_dir: true, extension: None },
    ];
    assert_eq!(walk.step(Event::Listed(Some(listing))), Action::Read(3));
    assert_eq!(walk.step(Event::Read(Some(String::from("three")))), Action::List(4));
    assert_eq!(walk.step(Event::Listed(None)), Action::Done);
    assert_eq!(walk.into_documents(), vec!["three"]);
}

#[test]
fn a_finished_walk_stays_finished() {
    let (mut walk, _) = Walk::start(0u32, true);
    assert_eq!(walk.step(Event::Listed(Some(Vec::new()))), Action::Done);
    assert_eq!(walk.step(Event::Read(None)), Action::Done);
    assert_eq!(walk.step(Event::Listed(None)), Action::Done);
    assert!(walk.into_documents().is_empty());
}

#[test]
fn locations_come_back_as_they_went_in() {
    let (mut walk, first) = Walk::start(String::from("content"), true);
    assert_eq!(first, Action::List(String::from("content")));
    let listing = vec![Entry {
        path: String::from("content/ä b/né.md"),
        is_dir: false,
        extension: Some(String::from("md")),
    }];
    assert_eq!(
        walk.step(Event::Listed(Some(listing))),
        Action::Read(String::from("content/ä b/né.md"))
    );
}
