use vstd::prelude::*;
use crate::error::ErrorKind;
use crate::text::{lemma_filter_push, parse_u8, spec_parse_u8, spec_trim};

verus! {

/// Spec-level image of a reader.
#[verifier::ext_equal]
pub struct ReaderV {
    pub name: Seq<char>,
    pub family: Seq<char>,
    pub father: Seq<char>,
    pub age: u8,
    pub id: u64,
    pub books: Seq<u64>,
    pub reading: Option<u64>,
}

/// A person registered with the library: personal data, a stable
/// registry id, the ordered history of copies they borrowed (as
/// non-owning stable copy ids) and the copy they currently hold, if
/// any.
pub struct Reader {
    pub name: String,
    pub family: String,
    pub father: String,
    pub age: u8,
    pub id: u64,
    pub books: Vec<u64>,
    pub reading: Option<u64>,
}

impl View for Reader {
    type V = ReaderV;

    open spec fn view(&self) -> ReaderV {
        ReaderV {
            name: self.name@,
            family: self.family@,
            father: self.father@,
            age: self.age,
            id: self.id,
            books: self.books@,
            reading: self.reading,
        }
    }
}

/// The spec-level images of a sequence of readers.
pub open spec fn readers_view(v: Seq<Reader>) -> Seq<ReaderV> {
    v.map_values(|r: Reader| r@)
}

/// The predicate keeping every copy id other than `cid`.
pub open spec fn not_id(cid: u64) -> spec_fn(u64) -> bool {
    |x: u64| x != cid
}

/// The predicate keeping every copy id outside `ids`.
pub open spec fn not_in(ids: Seq<u64>) -> spec_fn(u64) -> bool {
    |x: u64| !ids.contains(x)
}

impl ReaderV {
    /// Whether this reader carries the given personal identity.
    pub open spec fn same_person(
        self,
        name: Seq<char>,
        family: Seq<char>,
        father: Seq<char>,
        age: u8,
    ) -> bool {
        self.name == name && self.family == family && self.father == father && self.age == age
    }

    /// This reader with every reference to copy `cid` dropped from
    /// the history, and the current copy cleared when it is `cid`.
    pub open spec fn without_copy(self, cid: u64) -> ReaderV {
        ReaderV {
            books: self.books.filter(not_id(cid)),
            reading: if self.reading == Some(cid) {
                Option::None
            } else {
                self.reading
            },
            ..self
        }
    }

    /// This reader with every reference to one of the copies in
    /// `ids` dropped from the history, and the current copy cleared
    /// when it is one of them.
    pub open spec fn without_copies(self, ids: Seq<u64>) -> ReaderV {
        ReaderV {
            books: self.books.filter(not_in(ids)),
            reading: match self.reading {
                Option::Some(c) => if ids.contains(c) {
                    Option::None
                } else {
                    Option::Some(c)
                },
                Option::None => Option::None,
            },
            ..self
        }
    }
}

impl Reader {
    /// A new reader with the given personal data and stable registry
    /// id; they have borrowed nothing yet.
    pub fn new(new_name: String, new_family: String, new_father: String, new_age: u8, id: u64) -> (
        r: Reader)
        ensures
            r@ == (ReaderV {
                name: new_name@,
                family: new_family@,
                father: new_father@,
                age: new_age,
                id: id,
                books: Seq::<u64>::empty(),
                reading: Option::None,
            }),
    {
        Reader {
            name: new_name,
            family: new_family,
            father: new_father,
            age: new_age,
            id,
            books: Vec::new(),
            reading: None,
        }
    }

    /// Index of the first history entry referencing copy `cid`, or
    /// the history length when none does.
    pub fn find_book(&self, cid: u64) -> (r: usize)
        ensures
            r <= self@.books.len(),
            r < self@.books.len() ==> self@.books[r as int] == cid && (forall|j: int|
                0 <= j < r ==> self@.books[j] != cid),
            r == self@.books.len() ==> !self@.books.contains(cid),
    {
        let n = self.books.len();
        let mut i: usize = 0;
        while i < n
            invariant
                i <= n,
                n == self@.books.len(),
                forall|j: int| 0 <= j < i ==> self@.books[j] != cid,
            decreases n - i,
        {
            if self.books[i] == cid {
                return i;
            }
            i += 1;
        }
        proof {
            if self@.books.contains(cid) {
                let j = choose|j: int| 0 <= j < self@.books.len() && self@.books[j] == cid;
                assert(self@.books[j] != cid);
            }
        }
        i
    }

    /// Index of the last history entry referencing copy `cid`, or the
    /// history length when none does (ids can repeat in the history
    /// after a copy is borrowed again).
    pub fn find_book_last(&self, cid: u64) -> (r: usize)
        ensures
            r <= self@.books.len(),
            r < self@.books.len() ==> self@.books[r as int] == cid && (forall|j: int|
                r < j < self@.books.len() ==> self@.books[j] != cid),
            r == self@.books.len() ==> !self@.books.contains(cid),
    {
        let n = self.books.len();
        let mut i: usize = n;
        while i > 0
            invariant
                i <= n,
                n == self@.books.len(),
                forall|j: int| i <= j < n ==> self@.books[j] != cid,
            decreases i,
        {
            if self.books[i - 1] == cid {
                return i - 1;
            }
            i -= 1;
        }
        proof {
            if self@.books.contains(cid) {
                let j = choose|j: int| 0 <= j < self@.books.len() && self@.books[j] == cid;
                assert(self@.books[j] != cid);
            }
        }
        n
    }

    /// Record that this reader took copy `cid`: append it to the
    /// history and make it the current copy.
    pub fn start_reading(&mut self, cid: u64)
        ensures
            final(self)@ == (ReaderV {
                books: old(self)@.books.push(cid),
                reading: Option::Some(cid),
                ..old(self)@
            }),
    {
        self.books.push(cid);
        self.reading = Some(cid);
    }

    /// Record that this reader gave their current copy back: only the
    /// current-copy reference is cleared, the history stays.
    pub fn finish_reading(&mut self)
        ensures
            final(self)@ == (ReaderV { reading: Option::None, ..old(self)@ }),
    {
        self.reading = None;
    }

    /// Drop every reference to copy `cid` from this reader, as part
    /// of removing that copy from the catalog.
    pub fn remove_book(&mut self, cid: u64)
        ensures
            final(self)@ == old(self)@.without_copy(cid),
    {
        let mut out: Vec<u64> = Vec::new();
        let n = self.books.len();
        let mut i: usize = 0;
        while i < n
            invariant
                i <= n,
                n == self.books@.len(),
                out@ == self.books@.take(i as int).filter(not_id(cid)),
                self.books@ == old(self).books@,
            decreases n - i,
        {
            let x = self.books[i];
            proof {
                assert(not_id(cid)(x) == (x != cid));
                assert(self.books@.take(i as int + 1) =~= self.books@.take(i as int).push(x));
                lemma_filter_push(self.books@.take(i as int), not_id(cid), x);
            }
            if x != cid {
                out.push(x);
            }
            proof {
                assert(out@ == self.books@.take(i as int + 1).filter(not_id(cid)));
            }
            i += 1;
        }
        proof {
            assert(self.books@.take(n as int) =~= self.books@);
        }
        self.books = out;
        if self.reading.is_some() {
            let c = *self.reading.as_ref().unwrap();
            if c == cid {
                self.reading = None;
            }
        }
    }

    /// Drop every reference to one of the copies in `ids` from this
    /// reader, as part of removing a whole title aggregate.
    pub fn remove_books(&mut self, ids: &Vec<u64>)
        ensures
            final(self)@ == old(self)@.without_copies(ids@),
    {
        let mut out: Vec<u64> = Vec::new();
        let n = self.books.len();
        let mut i: usize = 0;
        while i < n
            invariant
                i <= n,
                n == self.books@.len(),
                out@ == self.books@.take(i as int).filter(not_in(ids@)),
                self.books@ == old(self).books@,
            decreases n - i,
        {
            let x = self.books[i];
            proof {
                assert(not_in(ids@)(x) == !ids@.contains(x));
                assert(self.books@.take(i as int + 1) =~= self.books@.take(i as int).push(x));
                lemma_filter_push(self.books@.take(i as int), not_in(ids@), x);
            }
            if self.contains_id(ids, x) {
            } else {
                out.push(x);
            }
            i += 1;
        }
        proof {
            assert(self.books@.take(n as int) =~= self.books@);
        }
        self.books = out;
        if self.reading.is_some() {
            let c = *self.reading.as_ref().unwrap();
            if self.contains_id(ids, c) {
                self.reading = None;
            }
        }
    }

    /// Whether `ids` holds `x`.
    fn contains_id(&self, ids: &Vec<u64>, x: u64) -> (r: bool)
        ensures
            r == ids@.contains(x),
    {
        let n = ids.len();
        let mut i: usize = 0;
        while i < n
            invariant
                i <= n,
                n == ids@.len(),
                forall|j: int| 0 <= j < i ==> ids@[j] != x,
            decreases n - i,
        {
            if ids[i] == x {
                return true;
            }
            i += 1;
        }
        proof {
            if ids@.contains(x) {
                let j = choose|j: int| 0 <= j < ids@.len() && ids@[j] == x;
                assert(ids@[j] != x);
            }
        }
        false
    }

    /// Change this reader's first name; an empty value is refused.
    pub fn change_name(&mut self, new_name: String) -> (r: Result<(), ErrorKind>)
        ensures
            new_name@.len() == 0 ==> r == Err::<(), ErrorKind>(ErrorKind::EmptyValue)
                && final(self)@ == old(self)@,
            new_name@.len() > 0 ==> r == Ok::<(), ErrorKind>(()) && final(self)@ == (ReaderV {
                name: new_name@,
                ..old(self)@
            }),
    {
        if new_name.as_str().is_empty() {
            Err(ErrorKind::EmptyValue)
        } else {
            self.name = new_name;
            Ok(())
        }
    }

    /// Change this reader's family name; an empty value is refused.
    pub fn change_family(&mut self, new_family: String) -> (r: Result<(), ErrorKind>)
        ensures
            new_family@.len() == 0 ==> r == Err::<(), ErrorKind>(ErrorKind::EmptyValue)
                && final(self)@ == old(self)@,
            new_family@.len() > 0 ==> r == Ok::<(), ErrorKind>(()) && final(self)@ == (ReaderV {
                family: new_family@,
                ..old(self)@
            }),
    {
        if new_family.as_str().is_empty() {
            Err(ErrorKind::EmptyValue)
        } else {
            self.family = new_family;
            Ok(())
        }
    }

    /// Change this reader's patronymic; an empty value is refused.
    pub fn change_father(&mut self, new_father: String) -> (r: Result<(), ErrorKind>)
        ensures
            new_father@.len() == 0 ==> r == Err::<(), ErrorKind>(ErrorKind::EmptyValue)
                && final(self)@ == old(self)@,
            new_father@.len() > 0 ==> r == Ok::<(), ErrorKind>(()) && final(self)@ == (ReaderV {
                father: new_father@,
                ..old(self)@
            }),
    {
        if new_father.as_str().is_empty() {
            Err(ErrorKind::EmptyValue)
        } else {
            self.father = new_father;
            Ok(())
        }
    }

    /// Change this reader's age, unconditionally.
    pub fn change_age(&mut self, new_age: u8)
        ensures
            final(self)@ == (ReaderV { age: new_age, ..old(self)@ }),
    {
        self.age = new_age;
    }
}

/// Spec-level image of the reader registry.
#[verifier::ext_equal]
pub struct ReaderBaseV {
    pub readers: Seq<ReaderV>,
    pub next_id: u64,
}

/// The registry of all readers, in insertion order, together with
/// the counter that hands out stable reader ids.
pub struct ReaderBase {
    pub readers: Vec<Reader>,
    pub next_id: u64,
}

impl View for ReaderBase {
    type V = ReaderBaseV;

    open spec fn view(&self) -> ReaderBaseV {
        ReaderBaseV { readers: readers_view(self.readers@), next_id: self.next_id }
    }
}

impl ReaderBaseV {
    /// Whether some reader carries the given personal identity.
    pub open spec fn has_person(
        self,
        name: Seq<char>,
        family: Seq<char>,
        father: Seq<char>,
        age: u8,
    ) -> bool {
        exists|i: int|
            0 <= i < self.readers.len() && (#[trigger] self.readers[i]).same_person(
                name,
                family,
                father,
                age,
            )
    }

    /// The position of the reader with the given personal identity
    /// (unique while the registry is well formed).
    pub open spec fn person_index(
        self,
        name: Seq<char>,
        family: Seq<char>,
        father: Seq<char>,
        age: u8,
    ) -> int {
        choose|i: int|
            0 <= i < self.readers.len() && (#[trigger] self.readers[i]).same_person(
                name,
                family,
                father,
                age,
            )
    }

    /// No two readers share their personal identity, and the stable
    /// ids are pairwise distinct and below `next_id`.
    pub open spec fn wf(self) -> bool {
        &&& forall|i: int, j: int|
            #![trigger self.readers[i], self.readers[j]]
            0 <= i < self.readers.len() && 0 <= j < self.readers.len() && i != j
                ==> !self.readers[i].same_person(
                self.readers[j].name,
                self.readers[j].family,
                self.readers[j].father,
                self.readers[j].age,
            )
        &&& forall|i: int|
            0 <= i < self.readers.len() ==> (#[trigger] self.readers[i]).id < self.next_id
        &&& forall|i: int, j: int|
            #![trigger self.readers[i].id, self.readers[j].id]
            0 <= i < self.readers.len() && 0 <= j < self.readers.len() && i != j
                ==> self.readers[i].id != self.readers[j].id
    }
}

impl ReaderBase {
    /// An empty registry.
    pub fn new() -> (r: ReaderBase)
        ensures
            r@.readers == Seq::<ReaderV>::empty(),
            r@.next_id == 0,
            r@.wf(),
    {
        let r = ReaderBase { readers: Vec::new(), next_id: 0 };
        proof {
            assert(r@.readers =~= Seq::<ReaderV>::empty());
        }
        r
    }

    /// How many readers are registered.
    pub fn len(&self) -> (r: usize)
        ensures
            r == self@.readers.len(),
    {
        self.readers.len()
    }

    /// Index of the reader with the given personal identity, or the
    /// reader count when nobody carries it.
    pub fn find_reader(&self, name: &String, family: &String, father: &String, age: u8) -> (r:
        usize)
        ensures
            r <= self@.readers.len(),
            r < self@.readers.len() ==> self@.readers[r as int].same_person(
                name@,
                family@,
                father@,
                age,
            ) && (forall|j: int|
                0 <= j < r ==> !(#[trigger] self@.readers[j]).same_person(
                    name@,
                    family@,
                    father@,
                    age,
                )),
            r == self@.readers.len() ==> !self@.has_person(name@, family@, father@, age),
    {
        let n = self.readers.len();
        let mut i: usize = 0;
        while i < n
            invariant
                i <= n,
                n == self@.readers.len(),
                forall|j: int|
                    0 <= j < i ==> !(#[trigger] self@.readers[j]).same_person(
                        name@,
                        family@,
                        father@,
                        age,
                    ),
            decreases n - i,
        {
            proof {
                assert(self@.readers[i as int] == self.readers@[i as int]@);
            }
            let p = &self.readers[i];
            if p.name == *name && p.family == *family && p.father == *father && p.age == age {
                return i;
            }
            i += 1;
        }
        proof {
            if self@.has_person(name@, family@, father@, age) {
                let j = choose|j: int|
                    0 <= j < self@.readers.len() && (#[trigger] self@.readers[j]).same_person(
                        name@,
                        family@,
                        father@,
                        age,
                    );
                assert(!self@.readers[j].same_person(name@, family@, father@, age));
            }
        }
        i
    }

    /// Register a new reader. Fails with `AlreadyExists`, changing
    /// nothing, when somebody already carries this identity.
    pub fn add_reader(&mut self, name: String, family: String, father: String, age: u8) -> (r:
        Result<(), ErrorKind>)
        requires
            old(self)@.wf(),
            old(self)@.next_id < u64::MAX,
        ensures
            final(self)@.wf(),
            old(self)@.has_person(name@, family@, father@, age) ==> r == Err::<(), ErrorKind>(
                ErrorKind::AlreadyExists,
            ) && final(self)@ == old(self)@,
            !old(self)@.has_person(name@, family@, father@, age) ==> r == Ok::<(), ErrorKind>(())
                && final(self)@.next_id == old(self)@.next_id + 1 && final(self)@.readers
                == old(self)@.readers.push(
                ReaderV {
                    name: name@,
                    family: family@,
                    father: father@,
                    age: age,
                    id: old(self)@.next_id,
                    books: Seq::<u64>::empty(),
                    reading: Option::None,
                },
            ),
    {
        let found = self.find_reader(&name, &family, &father, age);
        if found < self.readers.len() {
            return Err(ErrorKind::AlreadyExists);
        }
        let ghost oldv = self@;
        let p = Reader::new(name, family, father, age, self.next_id);
        self.readers.push(p);
        self.next_id = self.next_id + 1;
        proof {
            assert(final(self)@.readers =~= oldv.readers.push(p@));
            let newv = final(self)@;
            assert forall|i: int, j: int|
                #![trigger newv.readers[i], newv.readers[j]]
                0 <= i < newv.readers.len() && 0 <= j < newv.readers.len() && i != j
                    implies !newv.readers[i].same_person(
                newv.readers[j].name,
                newv.readers[j].family,
                newv.readers[j].father,
                newv.readers[j].age,
            ) by {
                if i < oldv.readers.len() && j < oldv.readers.len() {
                    assert(oldv.readers[i] == newv.readers[i]);
                    assert(oldv.readers[j] == newv.readers[j]);
                } else if i < oldv.readers.len() {
                    assert(!oldv.has_person(p@.name, p@.family, p@.father, p@.age));
                    if newv.readers[i].same_person(p@.name, p@.family, p@.father, p@.age) {
                        assert(oldv.readers[i].same_person(p@.name, p@.family, p@.father, p@.age));
                    }
                } else {
                    if newv.readers[j].same_person(p@.name, p@.family, p@.father, p@.age) {
                        assert(oldv.readers[j].same_person(p@.name, p@.family, p@.father, p@.age));
                    } else {
                        assert(!newv.readers[i].same_person(
                            newv.readers[j].name,
                            newv.readers[j].family,
                            newv.readers[j].father,
                            newv.readers[j].age,
                        ));
                    }
                }
            }
        }
        Ok(())
    }

    /// Drop every reference to copy `cid` from every reader, as part
    /// of removing that copy from the catalog.
    pub fn remove_copy_refs(&mut self, cid: u64)
        ensures
            final(self)@.next_id == old(self)@.next_id,
            final(self)@.readers.len() == old(self)@.readers.len(),
            forall|i: int|
                0 <= i < old(self)@.readers.len() ==> final(self)@.readers[i] == (#[trigger] old(
                    self,
                )@.readers[i]).without_copy(cid),
    {
        let n = self.readers.len();
        let mut i: usize = 0;
        while i < n
            invariant
                i <= n,
                n == self.readers@.len(),
                self.next_id == old(self).next_id,
                forall|j: int|
                    i <= j < n ==> self.readers@[j]@ == old(self).readers@[j]@,
                forall|j: int|
                    0 <= j < i ==> self.readers@[j]@ == (#[trigger] old(
                        self,
                    ).readers@[j]@).without_copy(cid),
            decreases n - i,
        {
            let mut tmp = Reader::new(String::new(), String::new(), String::new(), 0, 0);
            self.readers.set_and_swap(i, &mut tmp);
            tmp.remove_book(cid);
            self.readers.set_and_swap(i, &mut tmp);
            i += 1;
        }
    }

    /// Drop every reference to one of the copies in `ids` from every
    /// reader, as part of removing a whole title aggregate.
    pub fn remove_copies_refs(&mut self, ids: &Vec<u64>)
        ensures
            final(self)@.next_id == old(self)@.next_id,
            final(self)@.readers.len() == old(self)@.readers.len(),
            forall|i: int|
                0 <= i < old(self)@.readers.len() ==> final(self)@.readers[i] == (#[trigger] old(
                    self,
                )@.readers[i]).without_copies(ids@),
    {
        let n = self.readers.len();
        let mut i: usize = 0;
        while i < n
            invariant
                i <= n,
                n == self.readers@.len(),
                self.next_id == old(self).next_id,
                forall|j: int|
                    i <= j < n ==> self.readers@[j]@ == old(self).readers@[j]@,
                forall|j: int|
                    0 <= j < i ==> self.readers@[j]@ == (#[trigger] old(
                        self,
                    ).readers@[j]@).without_copies(ids@),
            decreases n - i,
        {
            let mut tmp = Reader::new(String::new(), String::new(), String::new(), 0, 0);
            self.readers.set_and_swap(i, &mut tmp);
            tmp.remove_books(ids);
            self.readers.set_and_swap(i, &mut tmp);
            i += 1;
        }
    }
}

/// Identity uniqueness and id freshness carry over when exactly one
/// reader's personal fields are rewritten to an identity nobody else
/// carries, keeping their stable id.
proof fn lemma_wf_after_person_update(oldv: ReaderBaseV, newv: ReaderBaseV, f: int)
    requires
        oldv.wf(),
        0 <= f < oldv.readers.len(),
        newv.next_id == oldv.next_id,
        newv.readers.len() == oldv.readers.len(),
        forall|j: int|
            0 <= j < oldv.readers.len() && j != f ==> newv.readers[j] == oldv.readers[j],
        newv.readers[f].id == oldv.readers[f].id,
        forall|j: int|
            0 <= j < oldv.readers.len() && j != f ==> !(#[trigger] oldv.readers[j]).same_person(
                newv.readers[f].name,
                newv.readers[f].family,
                newv.readers[f].father,
                newv.readers[f].age,
            ),
    ensures
        newv.wf(),
{
    assert forall|i: int, j: int|
        #![trigger newv.readers[i], newv.readers[j]]
        0 <= i < newv.readers.len() && 0 <= j < newv.readers.len() && i != j
            implies !newv.readers[i].same_person(
        newv.readers[j].name,
        newv.readers[j].family,
        newv.readers[j].father,
        newv.readers[j].age,
    ) by {
        if i != f && j != f {
            assert(newv.readers[i] == oldv.readers[i]);
            assert(newv.readers[j] == oldv.readers[j]);
        } else if i == f {
            assert(newv.readers[j] == oldv.readers[j]);
            if newv.readers[f].same_person(
                newv.readers[j].name,
                newv.readers[j].family,
                newv.readers[j].father,
                newv.readers[j].age,
            ) {
                assert(oldv.readers[j].same_person(
                    newv.readers[f].name,
                    newv.readers[f].family,
                    newv.readers[f].father,
                    newv.readers[f].age,
                ));
            }
        } else {
            assert(newv.readers[i] == oldv.readers[i]);
        }
    }
    assert forall|i: int, j: int|
        #![trigger newv.readers[i].id, newv.readers[j].id]
        0 <= i < newv.readers.len() && 0 <= j < newv.readers.len() && i != j
            implies newv.readers[i].id != newv.readers[j].id by {
        assert(newv.readers[i].id == oldv.readers[i].id);
        assert(newv.readers[j].id == oldv.readers[j].id);
    }
    assert forall|i: int| 0 <= i < newv.readers.len() implies (#[trigger] newv.readers[i]).id
        < newv.next_id by {
        assert(newv.readers[i].id == oldv.readers[i].id);
    }
}

impl ReaderBase {
    /// Give the reader with the given identity a new first name. The
    /// lookup must succeed, the resulting identity must not collide
    /// with a different reader's, and only then is an empty value
    /// refused; the checks run in that order and a failure changes
    /// nothing.
    pub fn change_name(
        &mut self,
        name: &String,
        family: &String,
        father: &String,
        age: u8,
        new_name: String,
    ) -> (r: Result<(), ErrorKind>)
        requires
            old(self)@.wf(),
        ensures
            final(self)@.wf(),
            !old(self)@.has_person(name@, family@, father@, age) ==> r == Err::<(), ErrorKind>(
                ErrorKind::NotFound,
            ) && final(self)@ == old(self)@,
            old(self)@.has_person(name@, family@, father@, age) ==> {
                let f = old(self)@.person_index(name@, family@, father@, age);
                if exists|j: int|
                    0 <= j < old(self)@.readers.len() && j != f && (#[trigger] old(
                        self,
                    )@.readers[j]).same_person(new_name@, family@, father@, age) {
                    r == Err::<(), ErrorKind>(ErrorKind::AlreadyExists) && final(self)@ == old(
                        self,
                    )@
                } else if new_name@.len() == 0 {
                    r == Err::<(), ErrorKind>(ErrorKind::EmptyValue) && final(self)@ == old(self)@
                } else {
                    r == Ok::<(), ErrorKind>(()) && final(self)@ == (ReaderBaseV {
                        readers: old(self)@.readers.update(
                            f,
                            ReaderV { name: new_name@, ..old(self)@.readers[f] },
                        ),
                        ..old(self)@
                    })
                }
            },
    {
        let f1 = self.find_reader(name, family, father, age);
        if f1 == self.readers.len() {
            return Err(ErrorKind::NotFound);
        }
        let ghost oldv = self@;
        let ghost f = oldv.person_index(name@, family@, father@, age);
        proof {
            assert(oldv.readers[f1 as int].same_person(name@, family@, father@, age));
            assert(oldv.readers[f].same_person(name@, family@, father@, age));
            assert(f == f1 as int);
        }
        let f2 = self.find_reader(&new_name, family, father, age);
        if f2 < self.readers.len() && f2 != f1 {
            proof {
                assert(oldv.readers[f2 as int].same_person(new_name@, family@, father@, age));
            }
            return Err(ErrorKind::AlreadyExists);
        }
        proof {
            assert forall|j: int|
                0 <= j < oldv.readers.len() && j != f implies !(#[trigger] oldv.readers[
            j]).same_person(new_name@, family@, father@, age) by {
                if oldv.readers[j].same_person(new_name@, family@, father@, age) {
                    if f2 == oldv.readers.len() {
                        assert(oldv.has_person(new_name@, family@, father@, age));
                    } else {
                        assert(f2 == f1);
                        assert(oldv.readers[f].same_person(new_name@, family@, father@, age));
                        assert(oldv.readers[j].same_person(
                            oldv.readers[f].name,
                            oldv.readers[f].family,
                            oldv.readers[f].father,
                            oldv.readers[f].age,
                        ));
                    }
                }
            }
        }
        if new_name.as_str().is_empty() {
            return Err(ErrorKind::EmptyValue);
        }
        let ghost nnv = new_name@;
        let mut tmp = Reader::new(String::new(), String::new(), String::new(), 0, 0);
        self.readers.set_and_swap(f1, &mut tmp);
        tmp.name = new_name;
        self.readers.set_and_swap(f1, &mut tmp);
        proof {
            assert(final(self)@.readers =~= oldv.readers.update(
                f,
                ReaderV { name: nnv, ..oldv.readers[f] },
            ));
            lemma_wf_after_person_update(oldv, final(self)@, f);
        }
        Ok(())
    }

    /// Give the reader with the given identity a new family name,
    /// under the same check order as renaming.
    pub fn change_family(
        &mut self,
        name: &String,
        family: &String,
        father: &String,
        age: u8,
        new_family: String,
    ) -> (r: Result<(), ErrorKind>)
        requires
            old(self)@.wf(),
        ensures
            final(self)@.wf(),
            !old(self)@.has_person(name@, family@, father@, age) ==> r == Err::<(), ErrorKind>(
                ErrorKind::NotFound,
            ) && final(self)@ == old(self)@,
            old(self)@.has_person(name@, family@, father@, age) ==> {
                let f = old(self)@.person_index(name@, family@, father@, age);
                if exists|j: int|
                    0 <= j < old(self)@.readers.len() && j != f && (#[trigger] old(
                        self,
                    )@.readers[j]).same_person(name@, new_family@, father@, age) {
                    r == Err::<(), ErrorKind>(ErrorKind::AlreadyExists) && final(self)@ == old(
                        self,
                    )@
                } else if new_family@.len() == 0 {
                    r == Err::<(), ErrorKind>(ErrorKind::EmptyValue) && final(self)@ == old(self)@
                } else {
                    r == Ok::<(), ErrorKind>(()) && final(self)@ == (ReaderBaseV {
                        readers: old(self)@.readers.update(
                            f,
                            ReaderV { family: new_family@, ..old(self)@.readers[f] },
                        ),
                        ..old(self)@
                    })
                }
            },
    {
        let f1 = self.find_reader(name, family, father, age);
        if f1 == self.readers.len() {
            return Err(ErrorKind::NotFound);
        }
        let ghost oldv = self@;
        let ghost f = oldv.person_index(name@, family@, father@, age);
        proof {
            assert(oldv.readers[f1 as int].same_person(name@, family@, father@, age));
            assert(oldv.readers[f].same_person(name@, family@, father@, age));
            assert(f == f1 as int);
        }
        let f2 = self.find_reader(name, &new_family, father, age);
        if f2 < self.readers.len() && f2 != f1 {
            proof {
                assert(oldv.readers[f2 as int].same_person(name@, new_family@, father@, age));
            }
            return Err(ErrorKind::AlreadyExists);
        }
        proof {
            assert forall|j: int|
                0 <= j < oldv.readers.len() && j != f implies !(#[trigger] oldv.readers[
            j]).same_person(name@, new_family@, father@, age) by {
                if oldv.readers[j].same_person(name@, new_family@, father@, age) {
                    if f2 == oldv.readers.len() {
                        assert(oldv.has_person(name@, new_family@, father@, age));
                    } else {
                        assert(f2 == f1);
                        assert(oldv.readers[j].same_person(
                            oldv.readers[f].name,
                            oldv.readers[f].family,
                            oldv.readers[f].father,
                            oldv.readers[f].age,
                        ));
                    }
                }
            }
        }
        if new_family.as_str().is_empty() {
            return Err(ErrorKind::EmptyValue);
        }
        let ghost nfv = new_family@;
        let mut tmp = Reader::new(String::new(), String::new(), String::new(), 0, 0);
        self.readers.set_and_swap(f1, &mut tmp);
        tmp.family = new_family;
        self.readers.set_and_swap(f1, &mut tmp);
        proof {
            assert(final(self)@.readers =~= oldv.readers.update(
                f,
                ReaderV { family: nfv, ..oldv.readers[f] },
            ));
            lemma_wf_after_person_update(oldv, final(self)@, f);
        }
        Ok(())
    }

    /// Give the reader with the given identity a new patronymic,
    /// under the same check order as renaming.
    pub fn change_father(
        &mut self,
        name: &String,
        family: &String,
        father: &String,
        age: u8,
        new_father: String,
    ) -> (r: Result<(), ErrorKind>)
        requires
            old(self)@.wf(),
        ensures
            final(self)@.wf(),
            !old(self)@.has_person(name@, family@, father@, age) ==> r == Err::<(), ErrorKind>(
                ErrorKind::NotFound,
            ) && final(self)@ == old(self)@,
            old(self)@.has_person(name@, family@, father@, age) ==> {
                let f = old(self)@.person_index(name@, family@, father@, age);
                if exists|j: int|
                    0 <= j < old(self)@.readers.len() && j != f && (#[trigger] old(
                        self,
                    )@.readers[j]).same_person(name@, family@, new_father@, age) {
                    r == Err::<(), ErrorKind>(ErrorKind::AlreadyExists) && final(self)@ == old(
                        self,
                    )@
                } else if new_father@.len() == 0 {
                    r == Err::<(), ErrorKind>(ErrorKind::EmptyValue) && final(self)@ == old(self)@
                } else {
                    r == Ok::<(), ErrorKind>(()) && final(self)@ == (ReaderBaseV {
                        readers: old(self)@.readers.update(
                            f,
                            ReaderV { father: new_father@, ..old(self)@.readers[f] },
                        ),
                        ..old(self)@
                    })
                }
            },
    {
        let f1 = self.find_reader(name, family, father, age);
        if f1 == self.readers.len() {
            return Err(ErrorKind::NotFound);
        }
        let ghost oldv = self@;
        let ghost f = oldv.person_index(name@, family@, father@, age);
        proof {
            assert(oldv.readers[f1 as int].same_person(name@, family@, father@, age));
            assert(oldv.readers[f].same_person(name@, family@, father@, age));
            assert(f == f1 as int);
        }
        let f2 = self.find_reader(name, family, &new_father, age);
        if f2 < self.readers.len() && f2 != f1 {
            proof {
                assert(oldv.readers[f2 as int].same_person(name@, family@, new_father@, age));
            }
            return Err(ErrorKind::AlreadyExists);
        }
        proof {
            assert forall|j: int|
                0 <= j < oldv.readers.len() && j != f implies !(#[trigger] oldv.readers[
            j]).same_person(name@, family@, new_father@, age) by {
                if oldv.readers[j].same_person(name@, family@, new_father@, age) {
                    if f2 == oldv.readers.len() {
                        assert(oldv.has_person(name@, family@, new_father@, age));
                    } else {
                        assert(f2 == f1);
                        assert(oldv.readers[j].same_person(
                            oldv.readers[f].name,
                            oldv.readers[f].family,
                            oldv.readers[f].father,
                            oldv.readers[f].age,
                        ));
                    }
                }
            }
        }
        if new_father.as_str().is_empty() {
            return Err(ErrorKind::EmptyValue);
        }
        let ghost nfv = new_father@;
        let mut tmp = Reader::new(String::new(), String::new(), String::new(), 0, 0);
        self.readers.set_and_swap(f1, &mut tmp);
        tmp.father = new_father;
        self.readers.set_and_swap(f1, &mut tmp);
        proof {
            assert(final(self)@.readers =~= oldv.readers.update(
                f,
                ReaderV { father: nfv, ..oldv.readers[f] },
            ));
            lemma_wf_after_person_update(oldv, final(self)@, f);
        }
        Ok(())
    }

    /// Give the reader with the given identity a new age, handed in
    /// as text. The text is parsed first (`ParseError` before any
    /// identity check); then lookup and collision run as for
    /// renaming. Age needs no validity check of its own.
    pub fn change_age(
        &mut self,
        name: &String,
        family: &String,
        father: &String,
        age: u8,
        new_age: String,
    ) -> (r: Result<(), ErrorKind>)
        requires
            old(self)@.wf(),
        ensures
            final(self)@.wf(),
            spec_parse_u8(spec_trim(new_age@)) is None ==> r == Err::<(), ErrorKind>(
                ErrorKind::ParseError,
            ) && final(self)@ == old(self)@,
            spec_parse_u8(spec_trim(new_age@)) matches Some(new_age_num) ==> {
                if !old(self)@.has_person(name@, family@, father@, age) {
                    r == Err::<(), ErrorKind>(ErrorKind::NotFound) && final(self)@ == old(self)@
                } else {
                    let f = old(self)@.person_index(name@, family@, father@, age);
                    if exists|j: int|
                        0 <= j < old(self)@.readers.len() && j != f && (#[trigger] old(
                            self,
                        )@.readers[j]).same_person(name@, family@, father@, new_age_num) {
                        r == Err::<(), ErrorKind>(ErrorKind::AlreadyExists) && final(self)@ == old(
                            self,
                        )@
                    } else {
                        r == Ok::<(), ErrorKind>(()) && final(self)@ == (ReaderBaseV {
                            readers: old(self)@.readers.update(
                                f,
                                ReaderV { age: new_age_num, ..old(self)@.readers[f] },
                            ),
                            ..old(self)@
                        })
                    }
                }
            },
    {
        let parsed = parse_u8(new_age.as_str());
        let new_age_num = match parsed {
            None => {
                return Err(ErrorKind::ParseError);
            },
            Some(v) => v,
        };
        let f1 = self.find_reader(name, family, father, age);
        if f1 == self.readers.len() {
            return Err(ErrorKind::NotFound);
        }
        let ghost oldv = self@;
        let ghost f = oldv.person_index(name@, family@, father@, age);
        proof {
            assert(oldv.readers[f1 as int].same_person(name@, family@, father@, age));
            assert(oldv.readers[f].same_person(name@, family@, father@, age));
            assert(f == f1 as int);
        }
        let f2 = self.find_reader(name, family, father, new_age_num);
        if f2 < self.readers.len() && f2 != f1 {
            proof {
                assert(oldv.readers[f2 as int].same_person(name@, family@, father@, new_age_num));
            }
            return Err(ErrorKind::AlreadyExists);
        }
        proof {
            assert forall|j: int|
                0 <= j < oldv.readers.len() && j != f implies !(#[trigger] oldv.readers[
            j]).same_person(name@, family@, father@, new_age_num) by {
                if oldv.readers[j].same_person(name@, family@, father@, new_age_num) {
                    if f2 == oldv.readers.len() {
                        assert(oldv.has_person(name@, family@, father@, new_age_num));
                    } else {
                        assert(f2 == f1);
                        assert(oldv.readers[j].same_person(
                            oldv.readers[f].name,
                            oldv.readers[f].family,
                            oldv.readers[f].father,
                            oldv.readers[f].age,
                        ));
                    }
                }
            }
        }
        let mut tmp = Reader::new(String::new(), String::new(), String::new(), 0, 0);
        self.readers.set_and_swap(f1, &mut tmp);
        tmp.age = new_age_num;
        self.readers.set_and_swap(f1, &mut tmp);
        proof {
            assert(final(self)@.readers =~= oldv.readers.update(
                f,
                ReaderV { age: new_age_num, ..oldv.readers[f] },
            ));
            lemma_wf_after_person_update(oldv, final(self)@, f);
        }
        Ok(())
    }
}


impl Reader {
    /// A structurally equal copy of this reader, history and current
    /// copy included.
    pub fn duplicate(&self) -> (r: Reader)
        ensures
            r@ == self@,
    {
        let mut hist: Vec<u64> = Vec::new();
        let n = self.books.len();
        let mut i: usize = 0;
        while i < n
            invariant
                i <= n,
                n == self.books@.len(),
                hist@ == self.books@.take(i as int),
            decreases n - i,
        {
            hist.push(self.books[i]);
            proof {
                assert(hist@ =~= self.books@.take(i as int + 1));
            }
            i += 1;
        }
        proof {
            assert(self.books@.take(n as int) =~= self.books@);
        }
        Reader {
            name: self.name.clone(),
            family: self.family.clone(),
            father: self.father.clone(),
            age: self.age,
            id: self.id,
            books: hist,
            reading: self.reading,
        }
    }
}

impl ReaderBase {
    /// A structurally equal copy of the whole registry.
    pub fn duplicate(&self) -> (r: ReaderBase)
        ensures
            r@ == self@,
    {
        let mut readers: Vec<Reader> = Vec::new();
        let n = self.readers.len();
        let mut i: usize = 0;
        while i < n
            invariant
                i <= n,
                n == self.readers@.len(),
                readers@.len() == i,
                forall|j: int| 0 <= j < i ==> readers@[j]@ == #[trigger] self.readers@[j]@,
            decreases n - i,
        {
            let p = self.readers[i].duplicate();
            readers.push(p);
            i += 1;
        }
        let r = ReaderBase { readers, next_id: self.next_id };
        proof {
            assert(r@.readers =~= self@.readers);
            assert(r@ == self@);
        }
        r
    }
}

} // verus!
