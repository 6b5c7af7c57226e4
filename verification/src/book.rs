use vstd::prelude::*;
use crate::error::ErrorKind;

verus! {

/// One entry of a physical copy's borrowing history: the reader who
/// took the copy (by their stable registry id) and whether the copy
/// has come back.
#[derive(Clone, Copy, Debug, PartialEq, Eq, Structural)]
pub struct BorrowEntry {
    pub reader: u64,
    pub returned: bool,
}

/// Spec-level image of a physical copy.
#[verifier::ext_equal]
pub struct BookV {
    pub title: Seq<char>,
    pub author: Seq<char>,
    pub pages: u16,
    pub id: u64,
    pub is_using: bool,
    pub readers: Seq<BorrowEntry>,
}

/// One lendable physical copy of a title. The title, author and page
/// count are duplicated from the owning title aggregate; `id` is the
/// copy's stable identity inside the catalog, and `readers` is the
/// ordered history of every borrow.
pub struct Book {
    pub title: String,
    pub author: String,
    pub pages: u16,
    pub id: u64,
    pub is_using: bool,
    pub readers: Vec<BorrowEntry>,
}

impl View for Book {
    type V = BookV;

    open spec fn view(&self) -> BookV {
        BookV {
            title: self.title@,
            author: self.author@,
            pages: self.pages,
            id: self.id,
            is_using: self.is_using,
            readers: self.readers@,
        }
    }
}

/// The spec-level images of a sequence of copies.
pub open spec fn books_view(v: Seq<Book>) -> Seq<BookV> {
    v.map_values(|b: Book| b@)
}

impl BookV {
    /// The usage flag is true if and only if the history is non-empty
    /// and its last entry has not yet been returned.
    pub open spec fn wf(self) -> bool {
        self.is_using <==> (self.readers.len() > 0 && !self.readers.last().returned)
    }

    /// The reader currently holding this copy (meaningful only while
    /// the copy is in use).
    pub open spec fn holder(self) -> u64
        recommends
            self.is_using,
    {
        self.readers.last().reader
    }

    /// Whether this copy carries the given identity.
    pub open spec fn has_identity(self, title: Seq<char>, author: Seq<char>, pages: u16) -> bool {
        self.title == title && self.author == author && self.pages == pages
    }

    /// The history after the last entry is marked as returned.
    pub open spec fn with_last_returned(self) -> BookV
        recommends
            self.readers.len() > 0,
    {
        BookV {
            is_using: false,
            readers: self.readers.update(
                self.readers.len() - 1,
                BorrowEntry { reader: self.readers.last().reader, returned: true },
            ),
            ..self
        }
    }
}

impl Book {
    /// A fresh, unused copy with the given identity and stable id.
    pub fn new(title: String, author: String, pages: u16, id: u64) -> (r: Book)
        ensures
            r@ == (BookV {
                title: title@,
                author: author@,
                pages: pages,
                id: id,
                is_using: false,
                readers: Seq::<BorrowEntry>::empty(),
            }),
            r@.wf(),
    {
        Book { title, author, pages, id, is_using: false, readers: Vec::new() }
    }

    /// Start a borrow by the given reader: push an unreturned history
    /// entry and raise the usage flag. Fails, changing nothing, when
    /// the copy is already lent out.
    pub fn begin_borrow(&mut self, reader: u64) -> (r: Result<(), ErrorKind>)
        ensures
            old(self)@.is_using ==> r == Err::<(), ErrorKind>(ErrorKind::AlreadyInUse)
                && final(self)@ == old(self)@,
            !old(self)@.is_using ==> r == Ok::<(), ErrorKind>(())
                && final(self)@ == (BookV {
                    is_using: true,
                    readers: old(self)@.readers.push(BorrowEntry { reader, returned: false }),
                    ..old(self)@
                }),
            old(self)@.wf() ==> final(self)@.wf(),
    {
        if self.is_using {
            Err(ErrorKind::AlreadyInUse)
        } else {
            self.readers.push(BorrowEntry { reader, returned: false });
            self.is_using = true;
            Ok(())
        }
    }

    /// End the current borrow: mark the last history entry returned
    /// and clear the usage flag. Fails, changing nothing, when the
    /// copy is not lent out.
    pub fn end_borrow(&mut self) -> (r: Result<(), ErrorKind>)
        requires
            old(self)@.wf(),
        ensures
            final(self)@.wf(),
            !old(self)@.is_using ==> r == Err::<(), ErrorKind>(ErrorKind::NotInUse)
                && final(self)@ == old(self)@,
            old(self)@.is_using ==> r == Ok::<(), ErrorKind>(())
                && final(self)@ == old(self)@.with_last_returned(),
    {
        if self.is_using {
            let n = self.readers.len();
            let mut e = self.readers[n - 1];
            e.returned = true;
            self.readers.set(n - 1, e);
            self.is_using = false;
            Ok(())
        } else {
            Err(ErrorKind::NotInUse)
        }
    }

    /// Detach the given reader from this copy, as part of removing
    /// that reader: if they are the current holder, their open entry
    /// is marked returned and the usage flag cleared; every other
    /// reader's history entries stay untouched. A copy the reader
    /// does not currently hold is left unchanged.
    pub fn detach_reader(&mut self, reader: u64)
        requires
            old(self)@.wf(),
        ensures
            final(self)@.wf(),
            old(self)@.is_using && old(self)@.holder() == reader ==> final(self)@
                == old(self)@.with_last_returned(),
            !(old(self)@.is_using && old(self)@.holder() == reader) ==> final(self)@ == old(self)@,
    {
        if self.is_using {
            let n = self.readers.len();
            let last = self.readers[n - 1];
            if last.reader == reader {
                let mut e = last;
                e.returned = true;
                self.readers.set(n - 1, e);
                self.is_using = false;
            }
        }
    }
}


impl Book {
    /// A structurally equal copy of this physical copy, history
    /// included.
    pub fn duplicate(&self) -> (r: Book)
        ensures
            r@ == self@,
    {
        let mut hist: Vec<BorrowEntry> = Vec::new();
        let n = self.readers.len();
        let mut i: usize = 0;
        while i < n
            invariant
                i <= n,
                n == self.readers@.len(),
                hist@ == self.readers@.take(i as int),
            decreases n - i,
        {
            hist.push(self.readers[i]);
            proof {
                assert(hist@ =~= self.readers@.take(i as int + 1));
            }
            i += 1;
        }
        proof {
            assert(self.readers@.take(n as int) =~= self.readers@);
        }
        Book {
            title: self.title.clone(),
            author: self.author.clone(),
            pages: self.pages,
            id: self.id,
            is_using: self.is_using,
            readers: hist,
        }
    }
}

} // verus!
