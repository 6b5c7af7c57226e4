use vstd::prelude::*;
use crate::book_sys::{BookSystem, BookSystemV};
use crate::genres::Genres;
use crate::reader::{ReaderBase, ReaderBaseV};
use crate::system::linked;

verus! {

/// Spec-level image of one saved snapshot.
#[verifier::ext_equal]
pub struct MementoV {
    pub readers: ReaderBaseV,
    pub books: BookSystemV,
    pub genres: Seq<Seq<char>>,
}

/// One saved snapshot: a deep copy of the reader registry, the
/// catalog and the genre registry, taken as one atomic unit.
pub struct Memento {
    pub readers: ReaderBase,
    pub books: BookSystem,
    pub genres: Genres,
}

impl View for Memento {
    type V = MementoV;

    open spec fn view(&self) -> MementoV {
        MementoV { readers: self.readers@, books: self.books@, genres: self.genres@ }
    }
}

/// The undo mechanism: a last-in-first-out stack of full snapshots.
/// Every mutating workflow pushes one before attempting its change;
/// an abandoned attempt discards it, a completed one leaves it for
/// `undo` to restore.
pub struct Caretaker {
    pub mementos: Vec<Memento>,
}

impl View for Caretaker {
    type V = Seq<MementoV>;

    open spec fn view(&self) -> Seq<MementoV> {
        self.mementos@.map_values(|m: Memento| m@)
    }
}

impl Caretaker {
    /// An empty undo stack.
    pub fn new() -> (r: Caretaker)
        ensures
            r@ == Seq::<MementoV>::empty(),
    {
        let r = Caretaker { mementos: Vec::new() };
        proof {
            assert(r@ =~= Seq::<MementoV>::empty());
        }
        r
    }

    /// How many snapshots are stacked.
    pub fn len(&self) -> (r: usize)
        ensures
            r == self@.len(),
    {
        self.mementos.len()
    }

    /// Push a deep copy of the current state triple. The copy is
    /// finished before the caller goes on to mutate the live state,
    /// so the stack never captures a half-mutated state.
    pub fn add_memento(&mut self, rb: &ReaderBase, bs: &BookSystem, genres: &Genres)
        ensures
            final(self)@ == old(self)@.push(
                MementoV { readers: rb@, books: bs@, genres: genres@ },
            ),
    {
        let m = Memento {
            readers: rb.duplicate(),
            books: bs.duplicate(),
            genres: genres.duplicate(),
        };
        self.mementos.push(m);
        proof {
            assert(final(self)@ =~= old(self)@.push(
                MementoV { readers: rb@, books: bs@, genres: genres@ },
            ));
        }
    }

    /// Discard the most recent snapshot without restoring it, used
    /// when the attempted action was abandoned before any mutation.
    /// Reports whether there was one to discard.
    pub fn pop(&mut self) -> (r: bool)
        ensures
            old(self)@.len() == 0 ==> !r && final(self)@ == old(self)@,
            old(self)@.len() > 0 ==> r && final(self)@ == old(self)@.drop_last(),
    {
        match self.mementos.pop() {
            None => {
                proof {
                    assert(final(self)@ =~= old(self)@);
                }
                false
            },
            Some(_m) => {
                proof {
                    assert(final(self)@ =~= old(self)@.drop_last());
                }
                true
            },
        }
    }

    /// Pop the most recent snapshot and replace the live reader
    /// registry, catalog and genre registry wholesale with its
    /// contents. Reports whether there was a snapshot; without one
    /// nothing changes.
    pub fn undo(&mut self, rb: &mut ReaderBase, bs: &mut BookSystem, genres: &mut Genres) -> (r:
        bool)
        ensures
            old(self)@.len() == 0 ==> !r && final(self)@ == old(self)@ && final(rb)@ == old(rb)@
                && final(bs)@ == old(bs)@ && final(genres)@ == old(genres)@,
            old(self)@.len() > 0 ==> r && final(self)@ == old(self)@.drop_last() && final(rb)@
                == old(self)@.last().readers && final(bs)@ == old(self)@.last().books
                && final(genres)@ == old(self)@.last().genres,
    {
        match self.mementos.pop() {
            None => {
                proof {
                    assert(final(self)@ =~= old(self)@);
                }
                false
            },
            Some(m) => {
                proof {
                    assert(final(self)@ =~= old(self)@.drop_last());
                    assert(m@ == old(self)@.last());
                }
                let Memento { readers, books, genres: g } = m;
                *rb = readers;
                *bs = books;
                *genres = g;
                true
            },
        }
    }
}

/// Snapshot then undo round-trips: whatever was pushed onto the stack
/// by the snapshot is exactly what the next undo pops and installs,
/// whatever happened to the live state in between. Since the restored
/// state is structurally equal to the saved one, every reference in
/// it still resolves the way it did when it was saved: a saved state
/// whose reader registry and catalog were well formed and correctly
/// linked is restored well formed and correctly linked.
pub proof fn lemma_snapshot_undo_round_trip(
    stack0: Seq<MementoV>,
    saved: MementoV,
    stack1: Seq<MementoV>,
)
    requires
        stack1 == stack0.push(saved),
    ensures
        stack1.len() > 0,
        stack1.last() == saved,
        stack1.drop_last() == stack0,
        saved.readers.wf() && saved.books.wf() && linked(saved.readers, saved.books) ==> {
            &&& stack1.last().readers.wf()
            &&& stack1.last().books.wf()
            &&& linked(stack1.last().readers, stack1.last().books)
        },
{
    assert(stack1.drop_last() =~= stack0);
}

} // verus!
