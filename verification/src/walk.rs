//! The work-list of a depth-first directory traversal.
//!
//! The traversal itself reads the file system, which this library does not
//! do. It keeps the paths that are still to be visited, in the order in
//! which a recursive descent would reach them, and decides what is done
//! with each.

use vstd::prelude::*;

verus! {

/// What is done with one directory entry.
#[derive(Debug)]
pub enum Action<P> {
    /// The entry is a regular file: its lines are searched.
    Search(P),
    /// The entry is a directory: it is listed, and its entries are visited
    /// before anything else that is pending.
    List(P),
    /// The entry is neither: it is passed over.
    Skip,
}

/// What is done with the entry at `path`, given what the file system says
/// of it. An entry that counts as a regular file is searched, whatever
/// else it is said to be.
pub fn action_for<P>(path: P, is_file: bool, is_directory: bool) -> (action: Action<P>)
    ensures
        action == if is_file {
            Action::Search(path)
        } else if is_directory {
            Action::List(path)
        } else {
            Action::Skip
        },
{
    if is_file {
        Action::Search(path)
    } else if is_directory {
        Action::List(path)
    } else {
        Action::Skip
    }
}

/// The paths that a traversal has still to visit.
pub struct Walker<P> {
    /// The pending paths, the next one last.
    stack: Vec<P>,
}

impl<P> View for Walker<P> {
    type V = Seq<P>;

    /// The pending paths in the order in which they will be visited.
    closed spec fn view(&self) -> Seq<P> {
        self.stack@.reverse()
    }
}

impl<P> Walker<P> {
    /// A work-list with nothing pending.
    pub fn new() -> (walker: Self)
        ensures
            walker@ == Seq::<P>::empty(),
    {
        let walker = Walker { stack: Vec::new() };
        assert(walker.stack@.reverse() =~= Seq::<P>::empty());
        walker
    }

    /// Whether nothing is pending.
    pub fn is_done(&self) -> (done: bool)
        ensures
            done == (self@.len() == 0),
    {
        self.stack.len() == 0
    }

    /// Puts the entries of a directory that was just listed in front of
    /// all that is pending, in the order of the listing.
    pub fn push_listing(&mut self, entries: Vec<P>)
        ensures
            final(self)@ == entries@ + old(self)@,
    {
        let mut entries = entries;
        let ghost listing = entries@;
        while entries.len() > 0
            invariant
                entries@.len() <= listing.len(),
                entries@ == listing.take(entries@.len() as int),
                self.stack@.reverse() == listing.skip(entries@.len() as int)
                    + old(self).stack@.reverse(),
            decreases entries.len(),
        {
            let ghost before = self.stack@;
            let ghost count = entries@.len();
            let entry = entries.pop().unwrap();
            self.stack.push(entry);
            assert(entries@ =~= listing.take(count - 1));
            assert(self.stack@.reverse() =~= seq![entry] + before.reverse());
            assert(listing.skip(count - 1) =~= seq![entry] + listing.skip(count as int));
        }
        assert(listing.skip(0) =~= listing);
    }

    /// Takes the next pending path, if there is one.
    pub fn next(&mut self) -> (path: Option<P>)
        ensures
            match path {
                Some(p) => {
                    &&& old(self)@.len() > 0
                    &&& p == old(self)@[0]
                    &&& final(self)@ == old(self)@.skip(1)
                },
                None => old(self)@.len() == 0 && final(self)@ == old(self)@,
            },
    {
        let ghost before = self.stack@;
        let path = self.stack.pop();
        assert(path is Some ==> self.stack@.reverse() =~= before.reverse().skip(1));
        path
    }
}

} // verus!
