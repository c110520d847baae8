//! What writing pages does to the destination directory.
//!
//! The directory is taken as a map from file name to file content. Writing a
//! page puts its content under its name and replaces whatever was there; the
//! pages of a run are written one after the other. Nothing here touches a
//! disk: these are the laws that the writing obeys.

use vstd::prelude::*;
use crate::render::{markdown_html, page_suffix, rendered, rendered_all, PageView};
use crate::tree::{
    documents_under, lemma_empty_directory_has_no_documents, lemma_walk_reads_the_markdown_files,
    walked, Tree,
};

verus! {

/// The directory after the pages have been written into it, in their order.
pub open spec fn written(
    directory: Map<Seq<char>, Seq<char>>,
    pages: Seq<PageView>,
) -> Map<Seq<char>, Seq<char>>
    decreases pages.len(),
{
    if pages.len() == 0 {
        directory
    } else {
        written(directory, pages.drop_last()).insert(pages.last().file_name, pages.last().html)
    }
}

/// The destination directory after a generation from the tree below `root`:
/// a walk over the tree collects the documents, each document is rendered,
/// and the pages are written in the order in which the documents were
/// collected.
pub open spec fn generated(directory: Map<Seq<char>, Seq<char>>, root: Tree) -> Map<
    Seq<char>,
    Seq<char>,
> {
    written(directory, rendered_all(walked(root).end.documents))
}

/// The content of the last of the pages that has the given file name.
pub open spec fn last_written(pages: Seq<PageView>, name: Seq<char>) -> Option<Seq<char>>
    decreases pages.len(),
{
    if pages.len() == 0 {
        None
    } else if pages.last().file_name == name {
        Some(pages.last().html)
    } else {
        last_written(pages.drop_last(), name)
    }
}

/// A file name without the suffix of a page.
pub open spec fn stem(name: Seq<char>) -> Seq<char> {
    name.subrange(0, name.len() - page_suffix().len())
}

/// Whether `name` is the file name of the page of one of the documents.
pub open spec fn names_page_of(documents: Set<Seq<char>>, name: Seq<char>) -> bool {
    &&& name.len() >= page_suffix().len()
    &&& name == stem(name) + page_suffix()
    &&& documents.contains(stem(name))
}

/// After writing, a name is in the directory if it was there before or one of
/// the pages has it, and it holds the content of the last page that has it,
/// or else what it held before.
pub proof fn lemma_written_holds_last(
    directory: Map<Seq<char>, Seq<char>>,
    pages: Seq<PageView>,
    name: Seq<char>,
)
    ensures
        written(directory, pages).contains_key(name) <==> directory.contains_key(name)
            || last_written(pages, name) is Some,
        written(directory, pages).contains_key(name) ==> written(directory, pages)[name] == (
        match last_written(pages, name) {
            Some(html) => html,
            None => directory[name],
        }),
    decreases pages.len(),
{
    if pages.len() > 0 {
        lemma_written_holds_last(directory, pages.drop_last(), name);
    }
}

/// The file name of a page determines the document: the name is the
/// document's text followed by the suffix, and nothing else.
pub proof fn lemma_name_determines_document(document: Seq<char>)
    ensures
        stem(rendered(document).file_name) == document,
        rendered(document).file_name.len() >= page_suffix().len(),
{
}

/// Among the pages of a run of documents, the last one with a given name
/// holds the hypertext of the one document that the name stands for, if that
/// document is among them. Order and repetition make no difference.
pub proof fn lemma_last_written_of_rendered(documents: Seq<Seq<char>>, name: Seq<char>)
    ensures
        last_written(rendered_all(documents), name) == (if names_page_of(
            documents.to_set(),
            name,
        ) {
            Some(markdown_html(stem(name)))
        } else {
            None
        }),
    decreases documents.len(),
{
    let pages = rendered_all(documents);
    if documents.len() > 0 {
        let earlier = documents.drop_last();
        let last = documents.last();
        assert(pages.drop_last() =~= rendered_all(earlier));
        lemma_last_written_of_rendered(earlier, name);
        lemma_name_determines_document(last);
        assert(forall|document: Seq<char>|
            documents.contains(document) <==> earlier.contains(document) || document == last) by {
            assert forall|document: Seq<char>| documents.contains(document) implies (
            earlier.contains(document) || document == last) by {
                let i = choose|i: int| 0 <= i < documents.len() && documents[i] == document;
                if i < earlier.len() {
                    assert(earlier[i] == document);
                }
            }
            assert forall|document: Seq<char>| earlier.contains(document) implies documents.contains(
                document,
            ) by {
                let i = choose|i: int| 0 <= i < earlier.len() && earlier[i] == document;
            }
        }
    }
}

/// After the pages of a run of documents have been written, every file that
/// is named after one of the documents holds exactly the hypertext of that
/// document's whole text, and every other file is as it was: there if and
/// only if it was there before, with the content it had.
pub proof fn lemma_written_pages_are_conversions(
    directory: Map<Seq<char>, Seq<char>>,
    documents: Seq<Seq<char>>,
    name: Seq<char>,
)
    ensures
        names_page_of(documents.to_set(), name) ==> {
            &&& name == rendered(stem(name)).file_name
            &&& documents.contains(stem(name))
            &&& written(directory, rendered_all(documents)).contains_key(name)
            &&& written(directory, rendered_all(documents))[name] == markdown_html(stem(name))
        },
        !names_page_of(documents.to_set(), name) ==> {
            &&& written(directory, rendered_all(documents)).contains_key(name)
                <==> directory.contains_key(name)
            &&& directory.contains_key(name) ==> written(directory, rendered_all(documents))[name]
                == directory[name]
        },
        forall|i: int|
            0 <= i < documents.len() ==> names_page_of(
                documents.to_set(),
                #[trigger] rendered(documents[i]).file_name,
            ),
{
    lemma_written_holds_last(directory, rendered_all(documents), name);
    lemma_last_written_of_rendered(documents, name);
    assert forall|i: int| 0 <= i < documents.len() implies names_page_of(
        documents.to_set(),
        #[trigger] rendered(documents[i]).file_name,
    ) by {
        lemma_name_determines_document(documents[i]);
    }
}

/// A generation writes the pages of the documents below the root, and of
/// nothing else.
pub proof fn lemma_generated_from_documents(directory: Map<Seq<char>, Seq<char>>, root: Tree)
    ensures
        generated(directory, root) == written(directory, rendered_all(documents_under(root))),
{
    lemma_walk_reads_the_markdown_files(root);
}

/// Writing the same pages a second time changes nothing.
pub proof fn lemma_written_twice(directory: Map<Seq<char>, Seq<char>>, pages: Seq<PageView>)
    ensures
        written(written(directory, pages), pages) == written(directory, pages),
{
    let once = written(directory, pages);
    let twice = written(once, pages);
    assert forall|name: Seq<char>| #![trigger twice.dom().contains(name)]
        (twice.dom().contains(name) <==> once.dom().contains(name)) && (twice.dom().contains(
            name,
        ) ==> twice[name] == once[name]) by {
        lemma_written_holds_last(directory, pages, name);
        lemma_written_holds_last(once, pages, name);
    }
}

/// Generating a second time from an unchanged source leaves the destination
/// directory as the first generation left it.
pub proof fn lemma_generation_is_idempotent(directory: Map<Seq<char>, Seq<char>>, root: Tree)
    ensures
        generated(generated(directory, root), root) == generated(directory, root),
{
    lemma_written_twice(directory, rendered_all(walked(root).end.documents));
}

/// Generating again from the same documents leaves the destination directory
/// as the first generation left it. The second run may meet the documents in
/// another order, and may meet a text more or less often, as long as it meets
/// the same texts: what a page is called and what it holds depend on the
/// document's text alone.
pub proof fn lemma_generation_settles(
    directory: Map<Seq<char>, Seq<char>>,
    first: Seq<Seq<char>>,
    second: Seq<Seq<char>>,
)
    requires
        first.to_set() == second.to_set(),
    ensures
        written(written(directory, rendered_all(first)), rendered_all(second)) == written(
            directory,
            rendered_all(first),
        ),
        written(directory, rendered_all(second)) == written(directory, rendered_all(first)),
{
    let once = written(directory, rendered_all(first));
    let twice = written(once, rendered_all(second));
    let other = written(directory, rendered_all(second));
    assert forall|name: Seq<char>| #![trigger twice.dom().contains(name)]
        (twice.dom().contains(name) <==> once.dom().contains(name)) && (twice.dom().contains(
            name,
        ) ==> twice[name] == once[name]) by {
        lemma_written_holds_last(directory, rendered_all(first), name);
        lemma_written_holds_last(once, rendered_all(second), name);
        lemma_last_written_of_rendered(first, name);
        lemma_last_written_of_rendered(second, name);
    }
    assert forall|name: Seq<char>| #![trigger other.dom().contains(name)]
        (other.dom().contains(name) <==> once.dom().contains(name)) && (other.dom().contains(
            name,
        ) ==> other[name] == once[name]) by {
        lemma_written_holds_last(directory, rendered_all(first), name);
        lemma_written_holds_last(directory, rendered_all(second), name);
        lemma_last_written_of_rendered(first, name);
        lemma_last_written_of_rendered(second, name);
    }
}

/// A source without documents leaves the destination directory as it was:
/// no page is rendered and no file is written. Such is an empty source
/// directory, one that holds no markdown file at any depth, and a source that
/// is no directory at all.
pub proof fn lemma_nothing_to_write(directory: Map<Seq<char>, Seq<char>>, root: Tree)
    requires
        documents_under(root).len() == 0,
    ensures
        rendered_all(walked(root).end.documents).len() == 0,
        generated(directory, root) == directory,
{
    lemma_walk_reads_the_markdown_files(root);
}

/// Generating from an empty source directory reads no file, renders no page
/// and leaves the destination directory as it was.
pub proof fn lemma_empty_source_writes_nothing(
    directory: Map<Seq<char>, Seq<char>>,
    extension: Option<Seq<char>>,
)
    ensures
        ({
            let root = Tree::Dir { extension, listing: Some(Seq::empty()) };
            &&& walked(root).read.len() == 0
            &&& walked(root).end.documents.len() == 0
            &&& rendered_all(walked(root).end.documents).len() == 0
            &&& generated(directory, root) == directory
        }),
{
    let root = Tree::Dir { extension, listing: Some(Seq::empty()) };
    lemma_walk_reads_the_markdown_files(root);
    lemma_empty_directory_has_no_documents(extension);
    lemma_nothing_to_write(directory, root);
}

} // verus!
