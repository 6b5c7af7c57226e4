use vstd::prelude::*;
use crate::book::{BookV, BorrowEntry};
use crate::book_sys::{BookSystem, BookSystemV};
use crate::error::ErrorKind;
use crate::reader::{Reader, ReaderBase, ReaderBaseV, ReaderV};

verus! {

/// Whether the copy this reader currently holds resolves, in `bs`, to
/// an in-use copy whose last history entry names this reader.
pub open spec fn reading_linked(rv: ReaderV, bs: BookSystemV) -> bool {
    rv.reading matches Some(cid) ==> exists|i: int, k: int|
        bs.valid_copy(i, k) && (#[trigger] bs.copy_at(i, k)).id == cid && bs.copy_at(i, k).is_using
            && bs.copy_at(i, k).holder() == rv.id
}

/// Whether some reader of `rb` currently holds the in-use copy `c`:
/// their stable id is the one in the copy's last history entry and
/// their current-copy reference is this copy.
pub open spec fn copy_held(c: BookV, rb: ReaderBaseV) -> bool {
    exists|r: int|
        0 <= r < rb.readers.len() && (#[trigger] rb.readers[r]).id == c.holder()
            && rb.readers[r].reading == Some(c.id)
}

/// The cross-entity invariant tying the reader registry to the
/// catalog: every held reference resolves to an in-use copy whose
/// last history entry names its holder, and every in-use copy is held
/// by exactly the reader its last history entry names.
pub open spec fn linked(rb: ReaderBaseV, bs: BookSystemV) -> bool {
    &&& forall|r: int| 0 <= r < rb.readers.len() ==> reading_linked(#[trigger] rb.readers[r], bs)
    &&& forall|i: int, k: int|
        bs.valid_copy(i, k) && (#[trigger] bs.copy_at(i, k)).is_using ==> copy_held(
            bs.copy_at(i, k),
            rb,
        )
}

/// Lend a copy of the title at `b_ind` to the reader at `r_ind`: the
/// first unused copy gets an open history entry naming the reader,
/// and the reader records it as read and currently held. Fails with
/// `AlreadyInUse`, changing nothing, when the reader already holds a
/// copy or every copy of the title is lent out. On success the index
/// of the lent copy is returned.
pub fn borrow_book(rb: &mut ReaderBase, bs: &mut BookSystem, r_ind: usize, b_ind: usize) -> (r:
    Result<usize, ErrorKind>)
    requires
        old(rb)@.wf(),
        old(bs)@.wf(),
        linked(old(rb)@, old(bs)@),
    ensures
        final(rb)@.wf(),
        final(bs)@.wf(),
        linked(final(rb)@, final(bs)@),
        r_ind >= old(rb)@.readers.len() || b_ind >= old(bs)@.books.len() ==> r == Err::<
            usize,
            ErrorKind,
        >(ErrorKind::IndexOutOfRange) && final(rb)@ == old(rb)@ && final(bs)@ == old(bs)@,
        r_ind < old(rb)@.readers.len() && b_ind < old(bs)@.books.len() && (old(
            rb,
        )@.readers[r_ind as int].reading is Some || (forall|k: int|
            0 <= k < old(bs)@.books[b_ind as int].books.len() ==> old(bs)@.copy_at(
                b_ind as int,
                k,
            ).is_using)) ==> r == Err::<usize, ErrorKind>(ErrorKind::AlreadyInUse) && final(rb)@
            == old(rb)@ && final(bs)@ == old(bs)@,
        r_ind < old(rb)@.readers.len() && b_ind < old(bs)@.books.len() && old(
            rb,
        )@.readers[r_ind as int].reading is None && (exists|k: int|
            0 <= k < old(bs)@.books[b_ind as int].books.len() && !old(bs)@.copy_at(
                b_ind as int,
                k,
            ).is_using) ==> (r matches Ok(k) && old(bs)@.valid_copy(b_ind as int, k as int) && !old(
            bs,
        )@.copy_at(b_ind as int, k as int).is_using && final(bs)@ == old(bs)@.with_copy(
            b_ind as int,
            k as int,
            BookV {
                is_using: true,
                readers: old(bs)@.copy_at(b_ind as int, k as int).readers.push(
                    BorrowEntry {
                        reader: old(rb)@.readers[r_ind as int].id,
                        returned: false,
                    },
                ),
                ..old(bs)@.copy_at(b_ind as int, k as int)
            },
        ) && final(rb)@ == (ReaderBaseV {
            readers: old(rb)@.readers.update(
                r_ind as int,
                ReaderV {
                    books: old(rb)@.readers[r_ind as int].books.push(
                        old(bs)@.copy_at(b_ind as int, k as int).id,
                    ),
                    reading: Some(old(bs)@.copy_at(b_ind as int, k as int).id),
                    ..old(rb)@.readers[r_ind as int]
                },
            ),
            ..old(rb)@
        })),
{
    if r_ind >= rb.readers.len() || b_ind >= bs.books.len() {
        return Err(ErrorKind::IndexOutOfRange);
    }
    proof {
        assert(old(rb)@.readers[r_ind as int] == rb.readers@[r_ind as int]@);
        assert(old(bs)@.books[b_ind as int] == bs.books@[b_ind as int]@);
    }
    if rb.readers[r_ind].reading.is_some() {
        return Err(ErrorKind::AlreadyInUse);
    }
    let k = match bs.books[b_ind].get_unused() {
        None => {
            return Err(ErrorKind::AlreadyInUse);
        },
        Some(k) => k,
    };
    let reader_id = rb.readers[r_ind].id;
    let cid = bs.books[b_ind].books[k].id;
    let ghost rb0 = old(rb)@;
    let ghost bs0 = old(bs)@;
    let res = bs.begin_borrow_copy(b_ind, k, reader_id);
    proof {
        assert(res is Ok);
    }
    let mut tmp = Reader::new(String::new(), String::new(), String::new(), 0, 0);
    rb.readers.set_and_swap(r_ind, &mut tmp);
    tmp.start_reading(cid);
    rb.readers.set_and_swap(r_ind, &mut tmp);
    proof {
        let rb1 = final(rb)@;
        let bs1 = final(bs)@;
        assert(rb1.readers =~= rb0.readers.update(
            r_ind as int,
            ReaderV {
                books: rb0.readers[r_ind as int].books.push(cid),
                reading: Some(cid),
                ..rb0.readers[r_ind as int]
            },
        ));
        assert(bs1.wf()) by {
            crate::book_sys::lemma_wf_after_copy_update(bs0, bs1, b_ind as int, k as int);
        }
        assert(rb1.wf()) by {
            assert forall|i: int, j: int|
                #![trigger rb1.readers[i], rb1.readers[j]]
                0 <= i < rb1.readers.len() && 0 <= j < rb1.readers.len() && i != j
                    implies !rb1.readers[i].same_person(
                rb1.readers[j].name,
                rb1.readers[j].family,
                rb1.readers[j].father,
                rb1.readers[j].age,
            ) by {
                assert(rb1.readers[i].same_person(
                    rb0.readers[i].name,
                    rb0.readers[i].family,
                    rb0.readers[i].father,
                    rb0.readers[i].age,
                ));
                assert(rb1.readers[j].same_person(
                    rb0.readers[j].name,
                    rb0.readers[j].family,
                    rb0.readers[j].father,
                    rb0.readers[j].age,
                ));
            }
            assert forall|i: int| 0 <= i < rb1.readers.len() implies (
            #[trigger] rb1.readers[i]).id < rb1.next_id by {
                assert(rb1.readers[i].id == rb0.readers[i].id);
            }
            assert forall|i: int, j: int|
                #![trigger rb1.readers[i].id, rb1.readers[j].id]
                0 <= i < rb1.readers.len() && 0 <= j < rb1.readers.len() && i != j
                    implies rb1.readers[i].id != rb1.readers[j].id by {
                assert(rb1.readers[i].id == rb0.readers[i].id);
                assert(rb1.readers[j].id == rb0.readers[j].id);
            }
        }
        assert(linked(rb1, bs1)) by {
            assert forall|r: int| 0 <= r < rb1.readers.len() implies reading_linked(
                #[trigger] rb1.readers[r],
                bs1,
            ) by {
                if r == r_ind {
                    assert(bs1.valid_copy(b_ind as int, k as int));
                    assert(bs1.copy_at(b_ind as int, k as int).id == cid);
                    assert(bs1.copy_at(b_ind as int, k as int).is_using);
                    assert(bs1.copy_at(b_ind as int, k as int).holder() == reader_id);
                } else {
                    assert(rb1.readers[r] == rb0.readers[r]);
                    if rb0.readers[r].reading is Some {
                        let c2 = rb0.readers[r].reading.unwrap();
                        let (i0, k0) = choose|i0: int, k0: int|
                            bs0.valid_copy(i0, k0) && (#[trigger] bs0.copy_at(i0, k0)).id == c2
                                && bs0.copy_at(i0, k0).is_using && bs0.copy_at(i0, k0).holder()
                                == rb0.readers[r].id;
                        assert(bs0.copy_at(i0, k0).is_using);
                        assert(!bs0.copy_at(b_ind as int, k as int).is_using);
                        assert(i0 != b_ind || k0 != k);
                        assert(bs1.copy_at(i0, k0) == bs0.copy_at(i0, k0));
                        assert(bs1.valid_copy(i0, k0) && bs1.copy_at(i0, k0).id == c2
                            && bs1.copy_at(i0, k0).is_using && bs1.copy_at(i0, k0).holder()
                            == rb1.readers[r].id);
                    }
                }
            }
            assert forall|i: int, k0: int|
                bs1.valid_copy(i, k0) && (#[trigger] bs1.copy_at(i, k0)).is_using implies copy_held(
                bs1.copy_at(i, k0),
                rb1,
            ) by {
                if i == b_ind && k0 == k {
                    assert(rb1.readers[r_ind as int].id == bs1.copy_at(i, k0).holder());
                    assert(rb1.readers[r_ind as int].reading == Some(bs1.copy_at(i, k0).id));
                } else {
                    assert(bs1.copy_at(i, k0) == bs0.copy_at(i, k0));
                    let r0 = choose|r0: int|
                        0 <= r0 < rb0.readers.len() && (#[trigger] rb0.readers[r0]).id
                            == bs0.copy_at(i, k0).holder() && rb0.readers[r0].reading == Some(
                            bs0.copy_at(i, k0).id,
                        );
                    assert(r0 != r_ind);
                    assert(rb1.readers[r0] == rb0.readers[r0]);
                    assert(rb1.readers[r0].id == bs1.copy_at(i, k0).holder()
                        && rb1.readers[r0].reading == Some(bs1.copy_at(i, k0).id));
                }
            }
        }
    }
    Ok(k)
}

/// Take back the copy the reader at `r_ind` currently holds: the
/// copy's open history entry is marked returned and its usage flag
/// cleared, and the reader's current-copy reference is cleared (their
/// history keeps the entry). Fails with `NotInUse`, changing nothing,
/// when the reader holds no copy.
pub fn return_book(rb: &mut ReaderBase, bs: &mut BookSystem, r_ind: usize) -> (r: Result<
    (),
    ErrorKind,
>)
    requires
        old(rb)@.wf(),
        old(bs)@.wf(),
        linked(old(rb)@, old(bs)@),
    ensures
        final(rb)@.wf(),
        final(bs)@.wf(),
        linked(final(rb)@, final(bs)@),
        r_ind >= old(rb)@.readers.len() ==> r == Err::<(), ErrorKind>(ErrorKind::IndexOutOfRange)
            && final(rb)@ == old(rb)@ && final(bs)@ == old(bs)@,
        r_ind < old(rb)@.readers.len() && old(rb)@.readers[r_ind as int].reading is None ==> r
            == Err::<(), ErrorKind>(ErrorKind::NotInUse) && final(rb)@ == old(rb)@ && final(bs)@
            == old(bs)@,
        r_ind < old(rb)@.readers.len() ==> (old(rb)@.readers[r_ind as int].reading matches Some(
            cid,
        ) ==> r == Ok::<(), ErrorKind>(()) && {
            let (i, k) = old(bs)@.loc_of(cid);
            final(bs)@ == old(bs)@.with_copy(i, k, old(bs)@.copy_at(i, k).with_last_returned())
                && final(rb)@ == (ReaderBaseV {
                readers: old(rb)@.readers.update(
                    r_ind as int,
                    ReaderV { reading: Option::None, ..old(rb)@.readers[r_ind as int] },
                ),
                ..old(rb)@
            })
        }),
{
    if r_ind >= rb.readers.len() {
        return Err(ErrorKind::IndexOutOfRange);
    }
    proof {
        assert(old(rb)@.readers[r_ind as int] == rb.readers@[r_ind as int]@);
    }
    let cid = match &rb.readers[r_ind].reading {
        None => {
            return Err(ErrorKind::NotInUse);
        },
        Some(c) => *c,
    };
    let ghost rb0 = old(rb)@;
    let ghost bs0 = old(bs)@;
    let loc = match bs.find_copy_by_id(cid) {
        None => {
            proof {
                assert(reading_linked(rb0.readers[r_ind as int], bs0));
                assert(false);
            }
            return Err(ErrorKind::NotFound);
        },
        Some(p) => p,
    };
    let (i, k) = loc;
    proof {
        let (i0, k0) = choose|i0: int, k0: int|
            bs0.valid_copy(i0, k0) && (#[trigger] bs0.copy_at(i0, k0)).id == cid && bs0.copy_at(
                i0,
                k0,
            ).is_using && bs0.copy_at(i0, k0).holder() == rb0.readers[r_ind as int].id;
        assert(i0 == i as int && k0 == k as int);
        let (i1, k1) = bs0.loc_of(cid);
        assert(bs0.valid_copy(i1, k1) && bs0.copy_at(i1, k1).id == cid) by {
            assert(bs0.has_copy_id(cid));
        }
        assert(i1 == i as int && k1 == k as int);
        assert(bs0.copy_at(i as int, k as int).wf());
    }
    let res = bs.end_borrow_copy(i, k);
    proof {
        assert(res is Ok);
    }
    let mut tmp = Reader::new(String::new(), String::new(), String::new(), 0, 0);
    rb.readers.set_and_swap(r_ind, &mut tmp);
    tmp.finish_reading();
    rb.readers.set_and_swap(r_ind, &mut tmp);
    proof {
        let rb1 = final(rb)@;
        let bs1 = final(bs)@;
        assert(rb1.readers =~= rb0.readers.update(
            r_ind as int,
            ReaderV { reading: Option::None, ..rb0.readers[r_ind as int] },
        ));
        assert(bs1.wf()) by {
            crate::book_sys::lemma_wf_after_copy_update(bs0, bs1, i as int, k as int);
        }
        assert(rb1.wf()) by {
            assert forall|a: int, b: int|
                #![trigger rb1.readers[a], rb1.readers[b]]
                0 <= a < rb1.readers.len() && 0 <= b < rb1.readers.len() && a != b
                    implies !rb1.readers[a].same_person(
                rb1.readers[b].name,
                rb1.readers[b].family,
                rb1.readers[b].father,
                rb1.readers[b].age,
            ) by {
                assert(rb1.readers[a].same_person(
                    rb0.readers[a].name,
                    rb0.readers[a].family,
                    rb0.readers[a].father,
                    rb0.readers[a].age,
                ));
                assert(rb1.readers[b].same_person(
                    rb0.readers[b].name,
                    rb0.readers[b].family,
                    rb0.readers[b].father,
                    rb0.readers[b].age,
                ));
            }
            assert forall|a: int| 0 <= a < rb1.readers.len() implies (
            #[trigger] rb1.readers[a]).id < rb1.next_id by {
                assert(rb1.readers[a].id == rb0.readers[a].id);
            }
            assert forall|a: int, b: int|
                #![trigger rb1.readers[a].id, rb1.readers[b].id]
                0 <= a < rb1.readers.len() && 0 <= b < rb1.readers.len() && a != b
                    implies rb1.readers[a].id != rb1.readers[b].id by {
                assert(rb1.readers[a].id == rb0.readers[a].id);
                assert(rb1.readers[b].id == rb0.readers[b].id);
            }
        }
        assert(linked(rb1, bs1)) by {
            assert forall|r: int| 0 <= r < rb1.readers.len() implies reading_linked(
                #[trigger] rb1.readers[r],
                bs1,
            ) by {
                if r != r_ind {
                    assert(rb1.readers[r] == rb0.readers[r]);
                    if rb0.readers[r].reading is Some {
                        let c2 = rb0.readers[r].reading.unwrap();
                        let (i0, k0) = choose|i0: int, k0: int|
                            bs0.valid_copy(i0, k0) && (#[trigger] bs0.copy_at(i0, k0)).id == c2
                                && bs0.copy_at(i0, k0).is_using && bs0.copy_at(i0, k0).holder()
                                == rb0.readers[r].id;
                        assert(i0 != i as int || k0 != k as int) by {
                            if i0 == i as int && k0 == k as int {
                                assert(rb0.readers[r].id == rb0.readers[r_ind as int].id);
                            }
                        }
                        assert(bs1.copy_at(i0, k0) == bs0.copy_at(i0, k0));
                        assert(bs1.valid_copy(i0, k0) && bs1.copy_at(i0, k0).id == c2
                            && bs1.copy_at(i0, k0).is_using && bs1.copy_at(i0, k0).holder()
                            == rb1.readers[r].id);
                    }
                }
            }
            assert forall|a: int, b: int|
                bs1.valid_copy(a, b) && (#[trigger] bs1.copy_at(a, b)).is_using implies copy_held(
                bs1.copy_at(a, b),
                rb1,
            ) by {
                assert(a != i as int || b != k as int);
                assert(bs1.copy_at(a, b) == bs0.copy_at(a, b));
                let r0 = choose|r0: int|
                    0 <= r0 < rb0.readers.len() && (#[trigger] rb0.readers[r0]).id == bs0.copy_at(
                        a,
                        b,
                    ).holder() && rb0.readers[r0].reading == Some(bs0.copy_at(a, b).id);
                assert(r0 != r_ind) by {
                    if r0 == r_ind {
                        assert(bs0.copy_at(a, b).id == cid);
                        assert(bs0.copy_at(i as int, k as int).id == cid);
                    }
                }
                assert(rb1.readers[r0] == rb0.readers[r0]);
                assert(rb1.readers[r0].id == bs1.copy_at(a, b).holder() && rb1.readers[r0].reading
                    == Some(bs1.copy_at(a, b).id));
            }
        }
    }
    Ok(())
}


impl Reader {
    /// Detach this reader from everything they reference, as part of
    /// removing them: the copy they currently hold (if any) gets its
    /// open history entry marked returned and its usage flag cleared
    /// in the catalog (its earlier history entries stay), and the
    /// reader's own history and current-copy reference are cleared.
    pub fn remove_all_books(&mut self, bs: &mut BookSystem)
        requires
            old(bs)@.wf(),
            reading_linked(old(self)@, old(bs)@),
        ensures
            final(bs)@.wf(),
            final(self)@ == (ReaderV {
                books: Seq::<u64>::empty(),
                reading: Option::None,
                ..old(self)@
            }),
            old(self)@.reading is None ==> final(bs)@ == old(bs)@,
            old(self)@.reading matches Some(cid) ==> {
                let (i, k) = old(bs)@.loc_of(cid);
                final(bs)@ == old(bs)@.with_copy(
                    i,
                    k,
                    old(bs)@.copy_at(i, k).with_last_returned(),
                )
            },
    {
        let ghost bs0 = old(bs)@;
        let reading = self.reading;
        match reading {
            None => {},
            Some(cid) => {
                proof {
                    let (i0, k0) = choose|i0: int, k0: int|
                        bs0.valid_copy(i0, k0) && (#[trigger] bs0.copy_at(i0, k0)).id == cid
                            && bs0.copy_at(i0, k0).is_using && bs0.copy_at(i0, k0).holder()
                            == old(self)@.id;
                    assert(bs0.has_copy_id(cid));
                    let (i, k) = bs0.loc_of(cid);
                    assert(bs0.valid_copy(i, k) && bs0.copy_at(i, k).id == cid);
                    assert(i == i0 && k == k0);
                }
                bs.detach_reader_by_id(cid, self.id);
            },
        }
        self.books = Vec::new();
        self.reading = None;
        proof {
            assert(final(self)@.books =~= Seq::<u64>::empty());
        }
    }
}

impl ReaderBase {
    /// Remove the reader with the given personal identity from the
    /// registry, first detaching them from the copy they hold, if
    /// any: that copy's usage flag is cleared and its open history
    /// entry marked returned, while every other reader's history
    /// entries stay untouched. Fails with `NotFound`, changing
    /// nothing, when nobody carries the identity.
    pub fn remove_reader(
        &mut self,
        name: &String,
        family: &String,
        father: &String,
        age: u8,
        bs: &mut BookSystem,
    ) -> (r: Result<(), ErrorKind>)
        requires
            old(self)@.wf(),
            old(bs)@.wf(),
            linked(old(self)@, old(bs)@),
        ensures
            final(self)@.wf(),
            final(bs)@.wf(),
            linked(final(self)@, final(bs)@),
            !old(self)@.has_person(name@, family@, father@, age) ==> r == Err::<(), ErrorKind>(
                ErrorKind::NotFound,
            ) && final(self)@ == old(self)@ && final(bs)@ == old(bs)@,
            old(self)@.has_person(name@, family@, father@, age) ==> r == Ok::<(), ErrorKind>(())
                && {
                let f = old(self)@.person_index(name@, family@, father@, age);
                final(self)@ == (ReaderBaseV {
                    readers: old(self)@.readers.remove(f),
                    ..old(self)@
                }) && (old(self)@.readers[f].reading is None ==> final(bs)@ == old(bs)@) && (old(
                    self,
                )@.readers[f].reading matches Some(cid) ==> {
                    let (i, k) = old(bs)@.loc_of(cid);
                    final(bs)@ == old(bs)@.with_copy(
                        i,
                        k,
                        old(bs)@.copy_at(i, k).with_last_returned(),
                    )
                })
            },
    {
        let f1 = self.find_reader(name, family, father, age);
        if f1 == self.readers.len() {
            return Err(ErrorKind::NotFound);
        }
        let ghost rb0 = old(self)@;
        let ghost bs0 = old(bs)@;
        let ghost f = rb0.person_index(name@, family@, father@, age);
        proof {
            assert(rb0.readers[f1 as int].same_person(name@, family@, father@, age));
            assert(rb0.readers[f].same_person(name@, family@, father@, age));
            assert(f == f1 as int);
            assert(reading_linked(rb0.readers[f], bs0));
        }
        let mut p = self.readers.remove(f1);
        proof {
            assert(p@ == rb0.readers[f]);
        }
        p.remove_all_books(bs);
        proof {
            let rb1 = final(self)@;
            let bs1 = final(bs)@;
            assert(rb1.readers =~= rb0.readers.remove(f));
            assert(rb1.wf()) by {
                assert forall|a: int, b: int|
                    #![trigger rb1.readers[a], rb1.readers[b]]
                    0 <= a < rb1.readers.len() && 0 <= b < rb1.readers.len() && a != b
                        implies !rb1.readers[a].same_person(
                    rb1.readers[b].name,
                    rb1.readers[b].family,
                    rb1.readers[b].father,
                    rb1.readers[b].age,
                ) by {
                    let a0: int = if a < f { a } else { a + 1 };
                    let b0: int = if b < f { b } else { b + 1 };
                    assert(rb1.readers[a] == rb0.readers[a0]);
                    assert(rb1.readers[b] == rb0.readers[b0]);
                }
                assert forall|a: int| 0 <= a < rb1.readers.len() implies (
                #[trigger] rb1.readers[a]).id < rb1.next_id by {
                    let a0: int = if a < f { a } else { a + 1 };
                    assert(rb1.readers[a] == rb0.readers[a0]);
                }
                assert forall|a: int, b: int|
                    #![trigger rb1.readers[a].id, rb1.readers[b].id]
                    0 <= a < rb1.readers.len() && 0 <= b < rb1.readers.len() && a != b
                        implies rb1.readers[a].id != rb1.readers[b].id by {
                    let a0: int = if a < f { a } else { a + 1 };
                    let b0: int = if b < f { b } else { b + 1 };
                    assert(rb1.readers[a] == rb0.readers[a0]);
                    assert(rb1.readers[b] == rb0.readers[b0]);
                }
            }
            assert(linked(rb1, bs1)) by {
                if rb0.readers[f].reading is None {
                    assert(bs1 == bs0);
                    assert forall|r: int| 0 <= r < rb1.readers.len() implies reading_linked(
                        #[trigger] rb1.readers[r],
                        bs1,
                    ) by {
                        let r0: int = if r < f { r } else { r + 1 };
                        assert(rb1.readers[r] == rb0.readers[r0]);
                        assert(reading_linked(rb0.readers[r0], bs0));
                    }
                    assert forall|a: int, b: int|
                        bs1.valid_copy(a, b) && (#[trigger] bs1.copy_at(a, b)).is_using
                            implies copy_held(bs1.copy_at(a, b), rb1) by {
                        let r0 = choose|r0: int|
                            0 <= r0 < rb0.readers.len() && (#[trigger] rb0.readers[r0]).id
                                == bs0.copy_at(a, b).holder() && rb0.readers[r0].reading == Some(
                                bs0.copy_at(a, b).id,
                            );
                        assert(r0 != f);
                        let r1: int = if r0 < f { r0 } else { r0 - 1 };
                        assert(rb1.readers[r1] == rb0.readers[r0]);
                    }
                } else {
                    let cid = rb0.readers[f].reading.unwrap();
                    let (i0, k0) = choose|i0: int, k0: int|
                        bs0.valid_copy(i0, k0) && (#[trigger] bs0.copy_at(i0, k0)).id == cid
                            && bs0.copy_at(i0, k0).is_using && bs0.copy_at(i0, k0).holder()
                            == rb0.readers[f].id;
                    let (i, k) = bs0.loc_of(cid);
                    assert(bs0.valid_copy(i, k) && bs0.copy_at(i, k).id == cid) by {
                        assert(bs0.has_copy_id(cid));
                    }
                    assert(i == i0 && k == k0);
                    assert(bs1 == bs0.with_copy(i, k, bs0.copy_at(i, k).with_last_returned()));
                    assert forall|r: int| 0 <= r < rb1.readers.len() implies reading_linked(
                        #[trigger] rb1.readers[r],
                        bs1,
                    ) by {
                        let r0: int = if r < f { r } else { r + 1 };
                        assert(rb1.readers[r] == rb0.readers[r0]);
                        assert(reading_linked(rb0.readers[r0], bs0));
                        if rb0.readers[r0].reading is Some {
                            let c2 = rb0.readers[r0].reading.unwrap();
                            let (i2, k2) = choose|i2: int, k2: int|
                                bs0.valid_copy(i2, k2) && (#[trigger] bs0.copy_at(i2, k2)).id == c2
                                    && bs0.copy_at(i2, k2).is_using && bs0.copy_at(i2, k2).holder()
                                    == rb0.readers[r0].id;
                            assert(i2 != i || k2 != k) by {
                                if i2 == i && k2 == k {
                                    assert(rb0.readers[r0].id == rb0.readers[f].id);
                                }
                            }
                            assert(bs1.copy_at(i2, k2) == bs0.copy_at(i2, k2));
                            assert(bs1.valid_copy(i2, k2) && bs1.copy_at(i2, k2).id == c2
                                && bs1.copy_at(i2, k2).is_using && bs1.copy_at(i2, k2).holder()
                                == rb1.readers[r].id);
                        }
                    }
                    assert forall|a: int, b: int|
                        bs1.valid_copy(a, b) && (#[trigger] bs1.copy_at(a, b)).is_using
                            implies copy_held(bs1.copy_at(a, b), rb1) by {
                        assert(a != i || b != k);
                        assert(bs1.copy_at(a, b) == bs0.copy_at(a, b));
                        let r0 = choose|r0: int|
                            0 <= r0 < rb0.readers.len() && (#[trigger] rb0.readers[r0]).id
                                == bs0.copy_at(a, b).holder() && rb0.readers[r0].reading == Some(
                                bs0.copy_at(a, b).id,
                            );
                        assert(r0 != f) by {
                            if r0 == f {
                                assert(bs0.copy_at(a, b).id == cid);
                                assert(bs0.copy_at(i, k).id == cid);
                            }
                        }
                        let r1: int = if r0 < f { r0 } else { r0 - 1 };
                        assert(rb1.readers[r1] == rb0.readers[r0]);
                    }
                }
            }
        }
        Ok(())
    }
}

/// Remove the copy at `(b_ind, k)` from the catalog: every reader's
/// history entries referencing it are dropped and any current-copy
/// reference to it is cleared, then the copy itself is deleted. Fails
/// with `IndexOutOfRange`, changing nothing, when the indices do not
/// address a copy.
pub fn remove_copy(rb: &mut ReaderBase, bs: &mut BookSystem, b_ind: usize, k: usize) -> (r: Result<
    (),
    ErrorKind,
>)
    requires
        old(rb)@.wf(),
        old(bs)@.wf(),
        linked(old(rb)@, old(bs)@),
    ensures
        final(rb)@.wf(),
        final(bs)@.wf(),
        linked(final(rb)@, final(bs)@),
        !old(bs)@.valid_copy(b_ind as int, k as int) ==> r == Err::<(), ErrorKind>(
            ErrorKind::IndexOutOfRange,
        ) && final(rb)@ == old(rb)@ && final(bs)@ == old(bs)@,
        old(bs)@.valid_copy(b_ind as int, k as int) ==> r == Ok::<(), ErrorKind>(()) && final(bs)@
            == (BookSystemV {
            books: old(bs)@.books.update(
                b_ind as int,
                crate::the_book::TheBookV {
                    books: old(bs)@.books[b_ind as int].books.remove(k as int),
                    ..old(bs)@.books[b_ind as int]
                },
            ),
            ..old(bs)@
        }) && final(rb)@.next_id == old(rb)@.next_id && final(rb)@.readers.len() == old(
            rb,
        )@.readers.len() && (forall|r0: int|
            0 <= r0 < old(rb)@.readers.len() ==> final(rb)@.readers[r0] == (#[trigger] old(
                rb,
            )@.readers[r0]).without_copy(old(bs)@.copy_at(b_ind as int, k as int).id)),
{
    if b_ind >= bs.books.len() {
        return Err(ErrorKind::IndexOutOfRange);
    }
    proof {
        assert(old(bs)@.books[b_ind as int] == bs.books@[b_ind as int]@);
    }
    if k >= bs.books[b_ind].books.len() {
        return Err(ErrorKind::IndexOutOfRange);
    }
    let cid = bs.books[b_ind].books[k].id;
    let ghost rb0 = old(rb)@;
    let ghost bs0 = old(bs)@;
    rb.remove_copy_refs(cid);
    bs.remove_copy_at(b_ind, k);
    proof {
        let rb1 = final(rb)@;
        let bs1 = final(bs)@;
        assert(rb1.wf()) by {
            assert forall|a: int, b: int|
                #![trigger rb1.readers[a], rb1.readers[b]]
                0 <= a < rb1.readers.len() && 0 <= b < rb1.readers.len() && a != b
                    implies !rb1.readers[a].same_person(
                rb1.readers[b].name,
                rb1.readers[b].family,
                rb1.readers[b].father,
                rb1.readers[b].age,
            ) by {
                assert(rb1.readers[a] == rb0.readers[a].without_copy(cid));
                assert(rb1.readers[b] == rb0.readers[b].without_copy(cid));
            }
            assert forall|a: int| 0 <= a < rb1.readers.len() implies (
            #[trigger] rb1.readers[a]).id < rb1.next_id by {
                assert(rb1.readers[a] == rb0.readers[a].without_copy(cid));
            }
            assert forall|a: int, b: int|
                #![trigger rb1.readers[a].id, rb1.readers[b].id]
                0 <= a < rb1.readers.len() && 0 <= b < rb1.readers.len() && a != b
                    implies rb1.readers[a].id != rb1.readers[b].id by {
                assert(rb1.readers[a] == rb0.readers[a].without_copy(cid));
                assert(rb1.readers[b] == rb0.readers[b].without_copy(cid));
            }
        }
        assert(linked(rb1, bs1)) by {
            assert forall|r0: int| 0 <= r0 < rb1.readers.len() implies reading_linked(
                #[trigger] rb1.readers[r0],
                bs1,
            ) by {
                assert(rb1.readers[r0] == rb0.readers[r0].without_copy(cid));
                if rb1.readers[r0].reading is Some {
                    let c2 = rb1.readers[r0].reading.unwrap();
                    assert(rb0.readers[r0].reading == Some(c2) && c2 != cid);
                    assert(reading_linked(rb0.readers[r0], bs0));
                    let (i2, k2) = choose|i2: int, k2: int|
                        bs0.valid_copy(i2, k2) && (#[trigger] bs0.copy_at(i2, k2)).id == c2
                            && bs0.copy_at(i2, k2).is_using && bs0.copy_at(i2, k2).holder()
                            == rb0.readers[r0].id;
                    assert(i2 != b_ind || k2 != k) by {
                        if i2 == b_ind && k2 == k {
                            assert(bs0.copy_at(i2, k2).id == cid);
                        }
                    }
                    let k3: int = if i2 == b_ind && k2 > k { k2 - 1 } else { k2 };
                    assert(bs1.copy_at(i2, k3) == bs0.copy_at(i2, k2));
                    assert(bs1.valid_copy(i2, k3));
                    assert(bs1.copy_at(i2, k3).id == c2 && bs1.copy_at(i2, k3).is_using
                        && bs1.copy_at(i2, k3).holder() == rb1.readers[r0].id);
                }
            }
            assert forall|a: int, b: int|
                bs1.valid_copy(a, b) && (#[trigger] bs1.copy_at(a, b)).is_using implies copy_held(
                bs1.copy_at(a, b),
                rb1,
            ) by {
                let b0: int = if a == b_ind && b >= k { b + 1 } else { b };
                assert(bs1.copy_at(a, b) == bs0.copy_at(a, b0));
                assert(bs0.valid_copy(a, b0));
                let r0 = choose|r0: int|
                    0 <= r0 < rb0.readers.len() && (#[trigger] rb0.readers[r0]).id == bs0.copy_at(
                        a,
                        b0,
                    ).holder() && rb0.readers[r0].reading == Some(bs0.copy_at(a, b0).id);
                assert(bs0.copy_at(a, b0).id != cid) by {
                    if bs0.copy_at(a, b0).id == cid {
                        assert(bs0.copy_at(b_ind as int, k as int).id == cid);
                        assert(a == b_ind && b0 == k);
                    }
                }
                assert(rb1.readers[r0] == rb0.readers[r0].without_copy(cid));
                assert(rb1.readers[r0].id == bs1.copy_at(a, b).holder() && rb1.readers[r0].reading
                    == Some(bs1.copy_at(a, b).id));
            }
        }
    }
    Ok(())
}

/// Remove the whole title aggregate at `b_ind` from the catalog:
/// every reader's history entries referencing any of its copies are
/// dropped and any current-copy reference into it cleared, then the
/// aggregate and all its copies are deleted. Fails with
/// `IndexOutOfRange`, changing nothing, when the index does not
/// address an aggregate.
pub fn remove_the_book(rb: &mut ReaderBase, bs: &mut BookSystem, b_ind: usize) -> (r: Result<
    (),
    ErrorKind,
>)
    requires
        old(rb)@.wf(),
        old(bs)@.wf(),
        linked(old(rb)@, old(bs)@),
    ensures
        final(rb)@.wf(),
        final(bs)@.wf(),
        linked(final(rb)@, final(bs)@),
        b_ind >= old(bs)@.books.len() ==> r == Err::<(), ErrorKind>(ErrorKind::IndexOutOfRange)
            && final(rb)@ == old(rb)@ && final(bs)@ == old(bs)@,
        b_ind < old(bs)@.books.len() ==> r == Ok::<(), ErrorKind>(()) && final(bs)@
            == (BookSystemV { books: old(bs)@.books.remove(b_ind as int), ..old(bs)@ }) && final(rb)@.next_id == old(rb)@.next_id && final(rb)@.readers.len() == old(rb)@.readers.len() && (
        forall|r0: int|
            0 <= r0 < old(rb)@.readers.len() ==> final(rb)@.readers[r0] == (#[trigger] old(
                rb,
            )@.readers[r0]).without_copies(old(bs)@.copy_ids_of(b_ind as int))),
{
    if b_ind >= bs.books.len() {
        return Err(ErrorKind::IndexOutOfRange);
    }
    proof {
        assert(old(bs)@.books[b_ind as int] == bs.books@[b_ind as int]@);
    }
    let ghost rb0 = old(rb)@;
    let ghost bs0 = old(bs)@;
    let m = bs.books[b_ind].books.len();
    let mut ids: Vec<u64> = Vec::new();
    let mut j: usize = 0;
    while j < m
        invariant
            j <= m,
            b_ind < bs0.books.len(),
            m == bs0.books[b_ind as int].books.len(),
            bs@ == bs0,
            b_ind < bs.books@.len(),
            ids@.len() == j,
            forall|x: int| 0 <= x < j ==> ids@[x] == bs0.copy_at(b_ind as int, x).id,
        decreases m - j,
    {
        proof {
            assert(bs0.books[b_ind as int] == bs.books@[b_ind as int]@);
        }
        let id = bs.books[b_ind].books[j].id;
        ids.push(id);
        j += 1;
    }
    proof {
        assert(ids@ =~= bs0.copy_ids_of(b_ind as int));
    }
    rb.remove_copies_refs(&ids);
    bs.remove_title_at(b_ind);
    proof {
        let rb1 = final(rb)@;
        let bs1 = final(bs)@;
        let idseq = bs0.copy_ids_of(b_ind as int);
        assert(rb1.wf()) by {
            assert forall|a: int, b: int|
                #![trigger rb1.readers[a], rb1.readers[b]]
                0 <= a < rb1.readers.len() && 0 <= b < rb1.readers.len() && a != b
                    implies !rb1.readers[a].same_person(
                rb1.readers[b].name,
                rb1.readers[b].family,
                rb1.readers[b].father,
                rb1.readers[b].age,
            ) by {
                assert(rb1.readers[a] == rb0.readers[a].without_copies(idseq));
                assert(rb1.readers[b] == rb0.readers[b].without_copies(idseq));
            }
            assert forall|a: int| 0 <= a < rb1.readers.len() implies (
            #[trigger] rb1.readers[a]).id < rb1.next_id by {
                assert(rb1.readers[a] == rb0.readers[a].without_copies(idseq));
            }
            assert forall|a: int, b: int|
                #![trigger rb1.readers[a].id, rb1.readers[b].id]
                0 <= a < rb1.readers.len() && 0 <= b < rb1.readers.len() && a != b
                    implies rb1.readers[a].id != rb1.readers[b].id by {
                assert(rb1.readers[a] == rb0.readers[a].without_copies(idseq));
                assert(rb1.readers[b] == rb0.readers[b].without_copies(idseq));
            }
        }
        assert(linked(rb1, bs1)) by {
            assert forall|r0: int| 0 <= r0 < rb1.readers.len() implies reading_linked(
                #[trigger] rb1.readers[r0],
                bs1,
            ) by {
                assert(rb1.readers[r0] == rb0.readers[r0].without_copies(idseq));
                if rb1.readers[r0].reading is Some {
                    let c2 = rb1.readers[r0].reading.unwrap();
                    assert(rb0.readers[r0].reading == Some(c2) && !idseq.contains(c2));
                    assert(reading_linked(rb0.readers[r0], bs0));
                    let (i2, k2) = choose|i2: int, k2: int|
                        bs0.valid_copy(i2, k2) && (#[trigger] bs0.copy_at(i2, k2)).id == c2
                            && bs0.copy_at(i2, k2).is_using && bs0.copy_at(i2, k2).holder()
                            == rb0.readers[r0].id;
                    assert(i2 != b_ind) by {
                        if i2 == b_ind {
                            assert(idseq[k2] == c2);
                            assert(idseq.contains(c2));
                        }
                    }
                    let i3: int = if i2 > b_ind { i2 - 1 } else { i2 };
                    assert(bs1.copy_at(i3, k2) == bs0.copy_at(i2, k2));
                    assert(bs1.valid_copy(i3, k2));
                    assert(bs1.copy_at(i3, k2).id == c2 && bs1.copy_at(i3, k2).is_using
                        && bs1.copy_at(i3, k2).holder() == rb1.readers[r0].id);
                }
            }
            assert forall|a: int, b: int|
                bs1.valid_copy(a, b) && (#[trigger] bs1.copy_at(a, b)).is_using implies copy_held(
                bs1.copy_at(a, b),
                rb1,
            ) by {
                let a0: int = if a >= b_ind { a + 1 } else { a };
                assert(bs1.copy_at(a, b) == bs0.copy_at(a0, b));
                assert(bs0.valid_copy(a0, b));
                let r0 = choose|r0: int|
                    0 <= r0 < rb0.readers.len() && (#[trigger] rb0.readers[r0]).id == bs0.copy_at(
                        a0,
                        b,
                    ).holder() && rb0.readers[r0].reading == Some(bs0.copy_at(a0, b).id);
                assert(!idseq.contains(bs0.copy_at(a0, b).id)) by {
                    if idseq.contains(bs0.copy_at(a0, b).id) {
                        let x = choose|x: int|
                            0 <= x < idseq.len() && idseq[x] == bs0.copy_at(a0, b).id;
                        assert(bs0.copy_at(b_ind as int, x).id == bs0.copy_at(a0, b).id);
                        assert(a0 == b_ind && x == b);
                    }
                }
                assert(rb1.readers[r0] == rb0.readers[r0].without_copies(idseq));
                assert(rb1.readers[r0].id == bs1.copy_at(a, b).holder() && rb1.readers[r0].reading
                    == Some(bs1.copy_at(a, b).id));
            }
        }
    }
    Ok(())
}


/// Remove every copy of the title at `b_ind`, keeping the aggregate
/// itself (and so its genre set, which is therefore still absent or
/// non-empty): every reader's history entries referencing one of the
/// copies are dropped and any current-copy reference into the title
/// cleared, then the copies are deleted. Fails with
/// `IndexOutOfRange`, changing nothing, when the index does not
/// address an aggregate.
pub fn remove_all_copies(rb: &mut ReaderBase, bs: &mut BookSystem, b_ind: usize) -> (r: Result<
    (),
    ErrorKind,
>)
    requires
        old(rb)@.wf(),
        old(bs)@.wf(),
        linked(old(rb)@, old(bs)@),
    ensures
        final(rb)@.wf(),
        final(bs)@.wf(),
        linked(final(rb)@, final(bs)@),
        b_ind >= old(bs)@.books.len() ==> r == Err::<(), ErrorKind>(ErrorKind::IndexOutOfRange)
            && final(rb)@ == old(rb)@ && final(bs)@ == old(bs)@,
        b_ind < old(bs)@.books.len() ==> r == Ok::<(), ErrorKind>(()) && final(bs)@
            == (BookSystemV {
            books: old(bs)@.books.update(
                b_ind as int,
                crate::the_book::TheBookV {
                    books: Seq::<BookV>::empty(),
                    ..old(bs)@.books[b_ind as int]
                },
            ),
            ..old(bs)@
        }) && final(rb)@.next_id == old(rb)@.next_id && final(rb)@.readers.len() == old(
            rb,
        )@.readers.len() && (forall|r0: int|
            0 <= r0 < old(rb)@.readers.len() ==> final(rb)@.readers[r0] == (#[trigger] old(
                rb,
            )@.readers[r0]).without_copies(old(bs)@.copy_ids_of(b_ind as int))),
{
    if b_ind >= bs.books.len() {
        return Err(ErrorKind::IndexOutOfRange);
    }
    proof {
        assert(old(bs)@.books[b_ind as int] == bs.books@[b_ind as int]@);
    }
    let ghost rb0 = old(rb)@;
    let ghost bs0 = old(bs)@;
    let m = bs.books[b_ind].books.len();
    let mut ids: Vec<u64> = Vec::new();
    let mut j: usize = 0;
    while j < m
        invariant
            j <= m,
            b_ind < bs0.books.len(),
            m == bs0.books[b_ind as int].books.len(),
            bs@ == bs0,
            b_ind < bs.books@.len(),
            ids@.len() == j,
            forall|x: int| 0 <= x < j ==> ids@[x] == bs0.copy_at(b_ind as int, x).id,
        decreases m - j,
    {
        proof {
            assert(bs0.books[b_ind as int] == bs.books@[b_ind as int]@);
        }
        let id = bs.books[b_ind].books[j].id;
        ids.push(id);
        j += 1;
    }
    proof {
        assert(ids@ =~= bs0.copy_ids_of(b_ind as int));
    }
    rb.remove_copies_refs(&ids);
    bs.remove_all_copies_at(b_ind);
    proof {
        let rb1 = final(rb)@;
        let bs1 = final(bs)@;
        let idseq = bs0.copy_ids_of(b_ind as int);
        assert(rb1.wf()) by {
            assert forall|a: int, b: int|
                #![trigger rb1.readers[a], rb1.readers[b]]
                0 <= a < rb1.readers.len() && 0 <= b < rb1.readers.len() && a != b
                    implies !rb1.readers[a].same_person(
                rb1.readers[b].name,
                rb1.readers[b].family,
                rb1.readers[b].father,
                rb1.readers[b].age,
            ) by {
                assert(rb1.readers[a] == rb0.readers[a].without_copies(idseq));
                assert(rb1.readers[b] == rb0.readers[b].without_copies(idseq));
            }
            assert forall|a: int| 0 <= a < rb1.readers.len() implies (
            #[trigger] rb1.readers[a]).id < rb1.next_id by {
                assert(rb1.readers[a] == rb0.readers[a].without_copies(idseq));
            }
            assert forall|a: int, b: int|
                #![trigger rb1.readers[a].id, rb1.readers[b].id]
                0 <= a < rb1.readers.len() && 0 <= b < rb1.readers.len() && a != b
                    implies rb1.readers[a].id != rb1.readers[b].id by {
                assert(rb1.readers[a] == rb0.readers[a].without_copies(idseq));
                assert(rb1.readers[b] == rb0.readers[b].without_copies(idseq));
            }
        }
        assert(linked(rb1, bs1)) by {
            assert forall|r0: int| 0 <= r0 < rb1.readers.len() implies reading_linked(
                #[trigger] rb1.readers[r0],
                bs1,
            ) by {
                assert(rb1.readers[r0] == rb0.readers[r0].without_copies(idseq));
                if rb1.readers[r0].reading is Some {
                    let c2 = rb1.readers[r0].reading.unwrap();
                    assert(rb0.readers[r0].reading == Some(c2) && !idseq.contains(c2));
                    assert(reading_linked(rb0.readers[r0], bs0));
                    let (i2, k2) = choose|i2: int, k2: int|
                        bs0.valid_copy(i2, k2) && (#[trigger] bs0.copy_at(i2, k2)).id == c2
                            && bs0.copy_at(i2, k2).is_using && bs0.copy_at(i2, k2).holder()
                            == rb0.readers[r0].id;
                    assert(i2 != b_ind) by {
                        if i2 == b_ind {
                            assert(idseq[k2] == c2);
                            assert(idseq.contains(c2));
                        }
                    }
                    assert(bs1.copy_at(i2, k2) == bs0.copy_at(i2, k2));
                    assert(bs1.valid_copy(i2, k2));
                    assert(bs1.copy_at(i2, k2).id == c2 && bs1.copy_at(i2, k2).is_using
                        && bs1.copy_at(i2, k2).holder() == rb1.readers[r0].id);
                }
            }
            assert forall|a: int, b: int|
                bs1.valid_copy(a, b) && (#[trigger] bs1.copy_at(a, b)).is_using implies copy_held(
                bs1.copy_at(a, b),
                rb1,
            ) by {
                assert(a != b_ind);
                assert(bs1.copy_at(a, b) == bs0.copy_at(a, b));
                assert(bs0.valid_copy(a, b));
                let r0 = choose|r0: int|
                    0 <= r0 < rb0.readers.len() && (#[trigger] rb0.readers[r0]).id == bs0.copy_at(
                        a,
                        b,
                    ).holder() && rb0.readers[r0].reading == Some(bs0.copy_at(a, b).id);
                assert(!idseq.contains(bs0.copy_at(a, b).id)) by {
                    if idseq.contains(bs0.copy_at(a, b).id) {
                        let x = choose|x: int|
                            0 <= x < idseq.len() && idseq[x] == bs0.copy_at(a, b).id;
                        assert(bs0.copy_at(b_ind as int, x).id == bs0.copy_at(a, b).id);
                        assert(a == b_ind && x == b);
                    }
                }
                assert(rb1.readers[r0] == rb0.readers[r0].without_copies(idseq));
                assert(rb1.readers[r0].id == bs1.copy_at(a, b).holder() && rb1.readers[r0].reading
                    == Some(bs1.copy_at(a, b).id));
            }
        }
    }
    Ok(())
}

} // verus!
