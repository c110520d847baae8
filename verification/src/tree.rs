//! What a walk collects from a directory tree.
//!
//! [`Tree`] is a directory tree written down as a value: for each directory
//! its entries in the order of its listing, for each file its text. Against
//! such a tree the answers of a faithful driver are fixed, so the whole course
//! of a walk is fixed too, and [`run`] follows it to its end. The laws of this
//! file say which files the walk has asked for by then and what it holds.

use vstd::prelude::*;
use crate::walk::{markdown_extension, Action, EntryView, EventView, WalkView};

verus! {

/// A file or a directory, with everything below it.
pub enum Tree {
    File {
        /// The extension of the file's name, if it has one.
        extension: Option<Seq<char>>,
        /// The file's text, or `None` if the file cannot be read as text.
        text: Option<Seq<char>>,
    },
    Dir {
        /// The extension of the directory's name, if it has one.
        extension: Option<Seq<char>>,
        /// The directory's entries in the order of its listing, or `None` if
        /// the directory cannot be listed.
        listing: Option<Seq<Tree>>,
    },
}

impl Tree {
    /// The entry under which a listing shows this tree. The tree is its own
    /// location.
    pub open spec fn entry(self) -> EntryView<Tree> {
        match self {
            Tree::File { extension, .. } => EntryView { path: self, is_dir: false, extension },
            Tree::Dir { extension, .. } => EntryView { path: self, is_dir: true, extension },
        }
    }

    /// What comes of listing this tree.
    pub open spec fn listed(self) -> EventView<Tree> {
        match self {
            Tree::Dir { listing: Some(entries), .. } => EventView::Listed(
                Some(entries_of(entries)),
            ),
            _ => EventView::Listed(None),
        }
    }

    /// What comes of reading this tree as a file.
    pub open spec fn read(self) -> EventView<Tree> {
        match self {
            Tree::File { text, .. } => EventView::Read(text),
            _ => EventView::Read(None),
        }
    }

    /// Whether this tree is a file with the markdown extension.
    pub open spec fn is_markdown_file(self) -> bool {
        self matches Tree::File { extension, .. } && extension == Some(markdown_extension())
    }
}

/// The entries of a listing that shows these trees, in their order.
pub open spec fn entries_of(forest: Seq<Tree>) -> Seq<EntryView<Tree>> {
    Seq::new(forest.len(), |i: int| forest[i].entry())
}

/// The locations of a run of entries, in their order.
pub open spec fn paths_of(entries: Seq<EntryView<Tree>>) -> Seq<Tree> {
    Seq::new(entries.len(), |i: int| entries[i].path)
}

/// The markdown files in a run of trees, at any depth: those of each tree
/// before those of the trees after it, and those of a directory in the order
/// of its listing. A directory that cannot be listed has none.
pub open spec fn markdown_files_in(forest: Seq<Tree>) -> Seq<Tree>
    decreases forest,
{
    if forest.len() == 0 {
        Seq::empty()
    } else {
        let first = match forest[0] {
            Tree::Dir { listing: Some(entries), .. } => markdown_files_in(entries),
            Tree::Dir { listing: None, .. } => Seq::empty(),
            Tree::File { .. } => if forest[0].is_markdown_file() {
                seq![forest[0]]
            } else {
                Seq::empty()
            },
        };
        first + markdown_files_in(forest.drop_first())
    }
}

/// The number of markdown files in a run of trees, at any depth.
pub open spec fn count_markdown_files(forest: Seq<Tree>) -> nat
    decreases forest,
{
    if forest.len() == 0 {
        0
    } else {
        let first: nat = match forest[0] {
            Tree::Dir { listing: Some(entries), .. } => count_markdown_files(entries),
            Tree::Dir { listing: None, .. } => 0,
            Tree::File { .. } => if forest[0].is_markdown_file() {
                1
            } else {
                0
            },
        };
        first + count_markdown_files(forest.drop_first())
    }
}

/// The texts of those of `files` that can be read, in their order.
pub open spec fn texts_read(files: Seq<Tree>) -> Seq<Seq<char>>
    decreases files.len(),
{
    if files.len() == 0 {
        Seq::empty()
    } else {
        let first = match files[0] {
            Tree::File { text: Some(text), .. } => seq![text],
            _ => Seq::empty(),
        };
        first + texts_read(files.drop_first())
    }
}

/// Whether every one of `files` is a file that can be read.
pub open spec fn all_readable(files: Seq<Tree>) -> bool {
    forall|i: int| 0 <= i < files.len() ==> (#[trigger] files[i]) matches Tree::File {
        text: Some(_),
        ..
    }
}

/// The markdown files below a root. A root that is no directory has none,
/// whatever its own name.
pub open spec fn markdown_files_under(root: Tree) -> Seq<Tree> {
    match root {
        Tree::Dir { listing: Some(entries), .. } => markdown_files_in(entries),
        _ => Seq::empty(),
    }
}

/// The documents below a root: the texts of its markdown files that can be
/// read.
pub open spec fn documents_under(root: Tree) -> Seq<Seq<char>> {
    texts_read(markdown_files_under(root))
}

/// The number of files and directories in a run of trees, at any depth.
pub open spec fn size_in(forest: Seq<Tree>) -> nat
    decreases forest,
{
    if forest.len() == 0 {
        0
    } else {
        size_of(forest[0]) + size_in(forest.drop_first())
    }
}

/// The number of files and directories in a tree, itself included.
pub open spec fn size_of(tree: Tree) -> nat
    decreases tree,
{
    match tree {
        Tree::Dir { listing: Some(entries), .. } => 1 + size_in(entries),
        _ => 1,
    }
}

/// What a faithful driver reports after doing what it was asked.
pub open spec fn response(action: Action<Tree>) -> EventView<Tree> {
    match action {
        Action::List(tree) => tree.listed(),
        Action::Read(tree) => tree.read(),
        Action::Done => EventView::Read(None),
    }
}

/// An upper bound on the files and directories that a walk has yet to deal
/// with, the one that its pending action names included.
pub open spec fn work_left(walk: WalkView<Tree>, action: Action<Tree>) -> nat {
    size_in(paths_of(walk.pending)) + match action {
        Action::List(tree) => size_of(tree),
        Action::Read(tree) => size_of(tree),
        Action::Done => 0,
    }
}

/// The course of a walk from some point to its end.
pub struct Course {
    /// What the walk asked to read, in the order in which it asked.
    pub read: Seq<Tree>,
    /// The walk at its end.
    pub end: WalkView<Tree>,
}

/// The course that a walk takes when a faithful driver carries it on from
/// `walk` with `action` pending.
pub open spec fn run(walk: WalkView<Tree>, action: Action<Tree>) -> Course
    decreases work_left(walk, action),
    via run_ends
{
    if action is Done {
        Course { read: Seq::empty(), end: walk }
    } else {
        let (next, then) = walk.step(response(action));
        let rest = run(next, then);
        match action {
            Action::Read(file) => Course { read: seq![file] + rest.read, end: rest.end },
            _ => rest,
        }
    }
}

/// The course of a whole walk over the tree below `root`, driven faithfully
/// from its beginning.
pub open spec fn walked(root: Tree) -> Course {
    let (walk, action) = WalkView::start(root, root is Dir);
    run(walk, action)
}

#[via_fn]
proof fn run_ends(walk: WalkView<Tree>, action: Action<Tree>) {
    if !(action is Done) {
        let taken = walk.absorb(response(action));
        lemma_advance_shrinks(taken);
        match action {
            Action::List(Tree::Dir { listing: Some(entries), .. }) => {
                lemma_size_of_joined(entries, paths_of(walk.pending));
                assert(paths_of(taken.pending) =~= entries + paths_of(walk.pending));
            },
            _ => {},
        }
    }
}

/// Finding the next action never adds work.
proof fn lemma_advance_shrinks(walk: WalkView<Tree>)
    ensures
        work_left(walk.advance().0, walk.advance().1) <= size_in(paths_of(walk.pending)),
    decreases walk.pending.len(),
{
    if walk.pending.len() > 0 {
        let rest = WalkView { pending: walk.pending.drop_first(), documents: walk.documents };
        assert(paths_of(rest.pending) =~= paths_of(walk.pending).drop_first());
        lemma_advance_shrinks(rest);
    }
}

/// The size of two runs of trees joined is the sum of their sizes.
proof fn lemma_size_of_joined(front: Seq<Tree>, back: Seq<Tree>)
    ensures
        size_in(front + back) == size_in(front) + size_in(back),
    decreases front.len(),
{
    if front.len() > 0 {
        assert((front + back).drop_first() =~= front.drop_first() + back);
        lemma_size_of_joined(front.drop_first(), back);
    }
}

/// The markdown files of two runs of trees joined are those of the first
/// followed by those of the second.
proof fn lemma_markdown_files_of_joined(front: Seq<Tree>, back: Seq<Tree>)
    ensures
        markdown_files_in(front + back) == markdown_files_in(front) + markdown_files_in(back),
    decreases front.len(),
{
    if front.len() > 0 {
        assert((front + back).drop_first() =~= front.drop_first() + back);
        lemma_markdown_files_of_joined(front.drop_first(), back);
    }
}

/// A walk that has the entries of `forest` waiting, and nothing else, asks
/// to read the markdown files of `forest` and ends with their texts added to
/// the documents it had.
proof fn lemma_run_collects(forest: Seq<Tree>, documents: Seq<Seq<char>>)
    ensures
        ({
            let walk = WalkView { pending: entries_of(forest), documents };
            run(walk.advance().0, walk.advance().1) == (Course {
                read: markdown_files_in(forest),
                end: WalkView {
                    pending: Seq::empty(),
                    documents: documents + texts_read(markdown_files_in(forest)),
                },
            })
        }),
    decreases size_in(forest),
{
    let walk = WalkView { pending: entries_of(forest), documents };
    let files = markdown_files_in(forest);
    if forest.len() == 0 {
        assert(walk.pending =~= Seq::empty());
    } else {
        let first = forest[0];
        let rest = forest.drop_first();
        let waiting = WalkView { pending: entries_of(rest), documents };
        assert(walk.pending.drop_first() =~= entries_of(rest));
        assert(size_in(forest) == size_of(first) + size_in(rest));
        match first {
            Tree::Dir { listing: Some(entries), .. } => {
                let taken = waiting.absorb(first.listed());
                assert(taken.pending =~= entries_of(entries + rest));
                lemma_size_of_joined(entries, rest);
                lemma_run_collects(entries + rest, documents);
                lemma_markdown_files_of_joined(entries, rest);
            },
            Tree::Dir { listing: None, .. } => {
                lemma_run_collects(rest, documents);
            },
            Tree::File { text, .. } => {
                if first.is_markdown_file() {
                    let later = markdown_files_in(rest);
                    assert(files.drop_first() =~= later);
                    match text {
                        Some(text) => {
                            lemma_run_collects(rest, documents.push(text));
                            assert(documents.push(text) + texts_read(later) =~= documents
                                + texts_read(files));
                        },
                        None => {
                            lemma_run_collects(rest, documents);
                        },
                    }
                } else {
                    lemma_run_collects(rest, documents);
                }
            },
        }
    }
}

/// A walk begun at the root of a tree and driven faithfully to its end has
/// asked to read each markdown file below the root once, in depth-first
/// order, and no other file; it holds the texts of those of them that could
/// be read, in the same order, and has nothing left to visit.
pub proof fn lemma_walk_reads_the_markdown_files(root: Tree)
    ensures
        walked(root) == (Course {
            read: markdown_files_under(root),
            end: WalkView { pending: Seq::empty(), documents: documents_under(root) },
        }),
{
    let begun = WalkView::<Tree>::empty();
    match root {
        Tree::Dir { listing: Some(entries), .. } => {
            lemma_run_collects(entries, Seq::empty());
        },
        Tree::Dir { listing: None, .. } => {
            assert(run(begun.step(root.listed()).0, begun.step(root.listed()).1) == (Course {
                read: Seq::empty(),
                end: begun,
            }));
        },
        Tree::File { .. } => {},
    }
}

/// A run of trees with `n` markdown files, at whatever depth and beside
/// whatever else, has `n` files to read, each of them a markdown file, and at
/// most `n` documents: exactly `n` if every one of the files can be read.
pub proof fn lemma_one_read_per_markdown_file(forest: Seq<Tree>)
    ensures
        markdown_files_in(forest).len() == count_markdown_files(forest),
        forall|i: int|
            0 <= i < markdown_files_in(forest).len() ==> (#[trigger] markdown_files_in(
                forest,
            )[i]).is_markdown_file(),
        texts_read(markdown_files_in(forest)).len() <= count_markdown_files(forest),
        all_readable(markdown_files_in(forest)) ==> texts_read(markdown_files_in(forest)).len()
            == count_markdown_files(forest),
    decreases size_in(forest),
{
    lemma_texts_read_counted(markdown_files_in(forest));
    if forest.len() > 0 {
        let rest = forest.drop_first();
        assert(size_in(forest) == size_of(forest[0]) + size_in(rest));
        lemma_one_read_per_markdown_file(rest);
        match forest[0] {
            Tree::Dir { listing: Some(entries), .. } => {
                lemma_one_read_per_markdown_file(entries);
            },
            _ => {},
        }
    }
}

/// No more texts are read than there are files, and as many if every file
/// can be read.
proof fn lemma_texts_read_counted(files: Seq<Tree>)
    ensures
        texts_read(files).len() <= files.len(),
        all_readable(files) ==> texts_read(files).len() == files.len(),
    decreases files.len(),
{
    if files.len() > 0 {
        let rest = files.drop_first();
        lemma_texts_read_counted(rest);
        assert(all_readable(files) ==> all_readable(rest)) by {
            assert(forall|i: int| 0 <= i < rest.len() ==> rest[i] == files[i + 1]);
        }
    }
}

/// An empty directory has no markdown files below it and so no documents.
pub proof fn lemma_empty_directory_has_no_documents(extension: Option<Seq<char>>)
    ensures
        markdown_files_under(Tree::Dir { extension, listing: Some(Seq::empty()) }).len() == 0,
        documents_under(Tree::Dir { extension, listing: Some(Seq::empty()) }).len() == 0,
{
}

} // verus!
