//! Walking a directory tree for its markdown documents.
//!
//! The walk is a state machine. It never touches the file system: it answers
//! each [`Event`] with the next [`Action`], and whoever drives it lists the
//! directory or reads the file that the action names and reports back what
//! came of it. Directories are entered depth-first, each in the order in which
//! its listing gave the entries; of the files only those with the extension
//! `md` are read; what cannot be listed or read is passed over in silence.
//!
//! A location is a value of a type `P` of the driver's choosing. The walk
//! hands locations back exactly as it got them and never looks inside one.

use vstd::prelude::*;
use crate::text::{same_text, texts};

verus! {

/// The extension that marks a file as a markdown document.
pub open spec fn markdown_extension() -> Seq<char> {
    "md"@
}

/// One entry of a directory listing, as the walk needs to know it.
#[derive(Debug, PartialEq, Eq)]
pub struct Entry<P> {
    /// Where the entry is.
    pub path: P,
    /// Whether the entry is a directory.
    pub is_dir: bool,
    /// The extension of the entry's name, without the dot, if it has one.
    pub extension: Option<String>,
}

/// The mathematical value of an [`Entry`].
pub struct EntryView<P> {
    pub path: P,
    pub is_dir: bool,
    pub extension: Option<Seq<char>>,
}

impl<P> View for Entry<P> {
    type V = EntryView<P>;

    open spec fn view(&self) -> EntryView<P> {
        EntryView {
            path: self.path,
            is_dir: self.is_dir,
            extension: match self.extension {
                Some(extension) => Some(extension@),
                None => None,
            },
        }
    }
}

/// What the walk does with an entry once its turn has come.
#[derive(Debug, Clone, Copy, PartialEq, Eq, Structural)]
pub enum Visit {
    /// A directory: list it, and visit what it holds before anything else.
    Descend,
    /// A markdown file: read it.
    Read,
    /// Anything else: pass it over.
    Skip,
}

impl<P> EntryView<P> {
    /// A directory is entered whatever its name; a file is read if and only
    /// if its extension is exactly `md`.
    pub open spec fn visit(self) -> Visit {
        if self.is_dir {
            Visit::Descend
        } else if self.extension == Some(markdown_extension()) {
            Visit::Read
        } else {
            Visit::Skip
        }
    }
}

impl<P> Entry<P> {
    /// Decides what the walk does with this entry.
    pub fn visit(&self) -> (visit: Visit)
        ensures
            visit == self@.visit(),
    {
        if self.is_dir {
            Visit::Descend
        } else {
            match &self.extension {
                Some(extension) => {
                    if same_text(extension.as_str(), "md") {
                        Visit::Read
                    } else {
                        Visit::Skip
                    }
                },
                None => Visit::Skip,
            }
        }
    }
}

/// What the driver is asked to do next.
#[derive(Debug, PartialEq, Eq)]
pub enum Action<P> {
    /// List the directory at this location and report [`Event::Listed`].
    List(P),
    /// Read the file at this location as text and report [`Event::Read`].
    Read(P),
    /// Nothing: the walk is over.
    Done,
}

/// What the driver reports back.
#[derive(Debug, PartialEq, Eq)]
pub enum Event<P> {
    /// The entries of the directory, in the order of its listing, or `None`
    /// if the directory could not be listed.
    Listed(Option<Vec<Entry<P>>>),
    /// The text of the file, or `None` if the file could not be read.
    Read(Option<String>),
}

/// The mathematical value of an [`Event`].
pub enum EventView<P> {
    Listed(Option<Seq<EntryView<P>>>),
    Read(Option<Seq<char>>),
}

/// The values of a run of entries, one for one.
pub open spec fn entry_views<P>(entries: Seq<Entry<P>>) -> Seq<EntryView<P>> {
    Seq::new(entries.len(), |i: int| entries[i]@)
}

impl<P> View for Event<P> {
    type V = EventView<P>;

    open spec fn view(&self) -> EventView<P> {
        match self {
            Event::Listed(Some(entries)) => EventView::Listed(Some(entry_views(entries@))),
            Event::Listed(None) => EventView::Listed(None),
            Event::Read(Some(text)) => EventView::Read(Some(text@)),
            Event::Read(None) => EventView::Read(None),
        }
    }
}

/// The mathematical value of a [`Walk`].
pub struct WalkView<P> {
    /// The entries still to be visited, the next one first.
    pub pending: Seq<EntryView<P>>,
    /// The documents read so far, in the order in which they were read.
    pub documents: Seq<Seq<char>>,
}

impl<P> WalkView<P> {
    /// A walk with nothing to visit and nothing read.
    pub open spec fn empty() -> WalkView<P> {
        WalkView { pending: Seq::empty(), documents: Seq::empty() }
    }

    /// The beginning of a walk at `root`. A root that is a directory is to be
    /// listed; with any other root the walk is over before it began, whatever
    /// the root's name.
    pub open spec fn start(root: P, is_dir: bool) -> (WalkView<P>, Action<P>) {
        (
            WalkView::empty(),
            if is_dir {
                Action::List(root)
            } else {
                Action::Done
            },
        )
    }

    /// Takes in what the driver reports. The entries of a listing go in front
    /// of everything that is waiting, in their own order; the text of a file
    /// goes behind the documents read so far; a failure changes nothing.
    pub open spec fn absorb(self, event: EventView<P>) -> WalkView<P> {
        match event {
            EventView::Listed(Some(entries)) => WalkView {
                pending: entries + self.pending,
                documents: self.documents,
            },
            EventView::Read(Some(text)) => WalkView {
                pending: self.pending,
                documents: self.documents.push(text),
            },
            _ => self,
        }
    }

    /// Passes over waiting entries up to the first that asks for work, and
    /// names that work. With nothing left the walk is over.
    pub open spec fn advance(self) -> (WalkView<P>, Action<P>)
        decreases self.pending.len(),
    {
        if self.pending.len() == 0 {
            (self, Action::Done)
        } else {
            let entry = self.pending[0];
            let rest = WalkView { pending: self.pending.drop_first(), documents: self.documents };
            match entry.visit() {
                Visit::Descend => (rest, Action::List(entry.path)),
                Visit::Read => (rest, Action::Read(entry.path)),
                Visit::Skip => rest.advance(),
            }
        }
    }

    /// One step of the walk: take in the event, then find the next action.
    pub open spec fn step(self, event: EventView<P>) -> (WalkView<P>, Action<P>) {
        self.absorb(event).advance()
    }
}

/// Finding the next action touches no document, and it finds none only when
/// nothing is left to visit.
pub proof fn lemma_advance_keeps_documents<P>(walk: WalkView<P>)
    ensures
        walk.advance().0.documents == walk.documents,
        walk.advance().0.pending.len() <= walk.pending.len(),
        walk.advance().1 is Done ==> walk.advance().0.pending.len() == 0,
    decreases walk.pending.len(),
{
    if walk.pending.len() > 0 {
        lemma_advance_keeps_documents(
            WalkView { pending: walk.pending.drop_first(), documents: walk.documents },
        );
    }
}

/// A step adds the text of a file that was read to the documents and leaves
/// them alone otherwise; a walk that is over has nothing left to visit.
pub proof fn lemma_step_keeps_documents<P>(walk: WalkView<P>, event: EventView<P>)
    ensures
        walk.step(event).0.documents == (match event {
            EventView::Read(Some(text)) => walk.documents.push(text),
            _ => walk.documents,
        }),
        walk.step(event).1 is Done ==> walk.step(event).0.pending.len() == 0,
{
    lemma_advance_keeps_documents(walk.absorb(event));
}

/// A walk in progress.
pub struct Walk<P> {
    /// The entries still to be visited, the next one last.
    pending: Vec<Entry<P>>,
    /// The documents read so far.
    documents: Vec<String>,
}

/// The values of a stack of entries, from its top down.
spec fn from_top<P>(stack: Seq<Entry<P>>) -> Seq<EntryView<P>> {
    Seq::new(stack.len(), |i: int| stack[stack.len() - 1 - i]@)
}

impl<P> View for Walk<P> {
    type V = WalkView<P>;

    closed spec fn view(&self) -> WalkView<P> {
        WalkView { pending: from_top(self.pending@), documents: texts(self.documents@) }
    }
}

impl<P> Walk<P> {
    /// Begins a walk at `root`, which is a directory or not as `is_dir` says,
    /// and gives the first action.
    pub fn start(root: P, is_dir: bool) -> (begun: (Walk<P>, Action<P>))
        ensures
            (begun.0@, begun.1) == WalkView::start(root, is_dir),
    {
        let walk = Walk { pending: Vec::new(), documents: Vec::new() };
        assert(walk@.pending =~= Seq::empty());
        assert(walk@.documents =~= Seq::empty());
        if is_dir {
            (walk, Action::List(root))
        } else {
            (walk, Action::Done)
        }
    }

    /// Takes in what the driver reports and gives the next action.
    pub fn step(&mut self, event: Event<P>) -> (action: Action<P>)
        ensures
            (final(self)@, action) == old(self)@.step(event@),
    {
        match event {
            Event::Listed(Some(entries)) => {
                self.push_listing(entries);
            },
            Event::Read(Some(text)) => {
                self.documents.push(text);
                assert(texts(self.documents@) =~= texts(old(self).documents@).push(text@));
            },
            _ => {},
        }
        self.advance()
    }

    /// Puts the entries of a listing on the stack so that the first of them
    /// is on top.
    fn push_listing(&mut self, entries: Vec<Entry<P>>)
        ensures
            final(self)@ == old(self)@.absorb(EventView::Listed(Some(entry_views(entries@)))),
    {
        let mut entries = entries;
        let ghost listed = entry_views(entries@);
        let ghost waiting = from_top(self.pending@);
        while entries.len() > 0
            invariant
                entry_views(entries@) + from_top(self.pending@) == listed + waiting,
                self.documents == old(self).documents,
            decreases entries.len(),
        {
            let entry = entries.pop().unwrap();
            self.pending.push(entry);
        }
    }

    /// Pops entries off the stack up to the first that asks for work.
    fn advance(&mut self) -> (action: Action<P>)
        ensures
            (final(self)@, action) == old(self)@.advance(),
    {
        loop
            invariant
                self@.advance() == old(self)@.advance(),
            decreases self.pending.len(),
        {
            let ghost stack = self.pending@;
            match self.pending.pop() {
                None => {
                    return Action::Done;
                },
                Some(entry) => {
                    assert(from_top(self.pending@) =~= from_top(stack).drop_first());
                    match entry.visit() {
                        Visit::Descend => {
                            return Action::List(entry.path);
                        },
                        Visit::Read => {
                            return Action::Read(entry.path);
                        },
                        Visit::Skip => {},
                    }
                },
            }
        }
    }

    /// Ends the walk and hands over the documents read, in the order in which
    /// they were read.
    pub fn into_documents(self) -> (documents: Vec<String>)
        ensures
            texts(documents@) == self@.documents,
    {
        self.documents
    }
}

} // verus!
